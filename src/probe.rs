//! Reading what the probes and the encoder print.
//!
//! Durations are kept as whole microseconds: ffprobe prints seconds as a
//! decimal fraction, and the encoder reports `out_time_us=<microseconds>`.
use vstd::prelude::*;
use crate::job::ExecuteError;
use crate::runner::{FfprobeError, FfprobeExit};
use crate::text::{all_digits, chars_of, digit_value, digits_value, is_digit, parse_digits};

verus! {

/// One second in microseconds.
pub const MICROS_PER_SECOND: u64 = 1_000_000;

/// The first six fractional digits of `f`, padded with zeros.
pub open spec fn six_digits(f: Seq<char>) -> Seq<char> {
    (f + Seq::new(6, |i: int| '0')).take(6)
}

/// `s` is `<digits>.<digits>` with the dot at `k` and a digit somewhere.
pub open spec fn dot_at(s: Seq<char>, k: int) -> bool {
    &&& 0 <= k < s.len()
    &&& s[k] == '.'
    &&& s.len() > 1
    &&& all_digits(s.take(k))
    &&& all_digits(s.skip(k + 1))
}

/// The microseconds that the decimal number of seconds `s` stands for:
/// digits, optionally a dot and more digits, at least one digit in all.
/// Fractional digits past the sixth are dropped.
pub open spec fn decimal_micros(s: Seq<char>) -> Option<nat> {
    if s.len() > 0 && all_digits(s) {
        Some(digits_value(s) * 1_000_000)
    } else if exists|k: int| dot_at(s, k) {
        let k = choose|k: int| dot_at(s, k);
        Some(digits_value(s.take(k)) * 1_000_000 + digits_value(six_digits(s.skip(k + 1))))
    } else {
        None
    }
}

fn all_digits_in(v: &Vec<char>, lo: usize, hi: usize) -> (r: bool)
    requires
        lo <= hi <= v@.len(),
    ensures
        r == all_digits(v@.subrange(lo as int, hi as int)),
{
    let mut i: usize = lo;
    while i < hi
        invariant
            lo <= i <= hi <= v@.len(),
            forall|m: int| lo <= m < i ==> is_digit(v@[m]),
        decreases hi - i,
    {
        if !('0' <= v[i] && v[i] <= '9') {
            assert(!is_digit(v@.subrange(lo as int, hi as int)[i - lo]));
            return false;
        }
        i = i + 1;
    }
    assert forall|m: int| 0 <= m < hi - lo implies is_digit(#[trigger] v@.subrange(lo as int, hi as int)[m]) by {
        assert(is_digit(v@[lo + m]));
    }
    true
}

/// The value of the first six digits after `lo`, padded with zeros.
fn fraction_micros(v: &Vec<char>, lo: usize) -> (r: u64)
    requires
        lo <= v@.len(),
        all_digits(v@.skip(lo as int)),
    ensures
        r == digits_value(six_digits(v@.skip(lo as int))),
        r < 1_000_000,
{
    let ghost x = six_digits(v@.skip(lo as int));
    assert(pow10(0) == 1);
    assert(pow10(1) == 10);
    assert(pow10(2) == 100);
    assert(pow10(3) == 1000);
    assert(pow10(4) == 10000);
    assert(pow10(5) == 100000);
    assert(pow10(6) == 1000000);
    let mut acc: u64 = 0;
    let mut t: usize = 0;
    while t < 6
        invariant
            t <= 6,
            lo <= v@.len(),
            all_digits(v@.skip(lo as int)),
            x == six_digits(v@.skip(lo as int)),
            acc == digits_value(x.take(t as int)),
            acc < pow10(t as nat),
            pow10(1) == 10 && pow10(2) == 100 && pow10(3) == 1000 && pow10(4) == 10000,
            pow10(5) == 100000 && pow10(6) == 1000000,
        decreases 6 - t,
    {
        assert(x.take(t + 1).drop_last() =~= x.take(t as int));
        let d: u64 = if t < v.len() - lo {
            assert(x[t as int] == v@.skip(lo as int)[t as int]);
            assert(is_digit(v@.skip(lo as int)[t as int]));
            ((v[lo + t] as u32) - ('0' as u32)) as u64
        } else {
            assert(x[t as int] == '0');
            0
        };
        assert(d == digit_value(x[t as int]));
        assert(acc * 10 + d < pow10((t + 1) as nat)) by (nonlinear_arith)
            requires
                acc < pow10(t as nat),
                d < 10,
                pow10((t + 1) as nat) == pow10(t as nat) * 10,
        ;
        acc = acc * 10 + d;
        t = t + 1;
    }
    assert(x.take(6) =~= x);
    acc
}

/// `10` to the power `n`.
pub open spec fn pow10(n: nat) -> nat
    decreases n,
{
    if n == 0 { 1 } else { pow10((n - 1) as nat) * 10 }
}

/// The duration that ffprobe printed on `line`, in microseconds; `None` when
/// the line is not a decimal number of seconds or the value does not fit.
pub fn parse_duration(line: &str) -> (r: Option<u64>)
    ensures
        match decimal_micros(line@) {
            Some(m) => if m <= u64::MAX { r == Some(m as u64) } else { r is None },
            None => r is None,
        },
{
    let v = chars_of(line);
    let n = v.len();
    let mut k: usize = 0;
    while k < n && v[k] != '.'
        invariant
            k <= n == v@.len(),
            forall|m: int| 0 <= m < k ==> v@[m] != '.',
        decreases n - k,
    {
        k = k + 1;
    }
    if k == n {
        if n == 0 || !all_digits_in(&v, 0, n) {
            proof {
                assert(v@.subrange(0, n as int) =~= v@);
                assert(!exists|j: int| dot_at(v@, j));
            }
            return None;
        }
        assert(v@.subrange(0, n as int) =~= v@);
        return match parse_digits(&v, 0, n) {
            Some(ip) => {
                if ip > u64::MAX / MICROS_PER_SECOND {
                    assert(digits_value(v@) * 1_000_000 > u64::MAX) by (nonlinear_arith)
                        requires digits_value(v@) > u64::MAX / 1_000_000u64;
                    None
                } else {
                    Some(ip * MICROS_PER_SECOND)
                }
            },
            None => {
                assert(digits_value(v@) * 1_000_000 > u64::MAX) by (nonlinear_arith)
                    requires digits_value(v@) > u64::MAX;
                None
            },
        };
    }
    assert(v@[k as int] == '.');
    let int_ok = all_digits_in(&v, 0, k);
    let frac_ok = all_digits_in(&v, k + 1, n);
    assert(v@.subrange(0, k as int) =~= v@.take(k as int));
    assert(v@.subrange(k + 1, n as int) =~= v@.skip(k + 1));
    if !(n > 1 && int_ok && frac_ok) {
        proof {
            assert(!is_digit(v@[k as int]));
            assert(!all_digits(v@));
            assert forall|j: int| !dot_at(v@, j) by {
                if dot_at(v@, j) {
                    if j > k {
                        assert(v@.take(j)[k as int] == v@[k as int]);
                    }
                }
            }
        }
        return None;
    }
    proof {
        assert(dot_at(v@, k as int));
        assert(!all_digits(v@)) by {
            assert(!is_digit(v@[k as int]));
        }
        let kc = choose|j: int| dot_at(v@, j);
        if kc < k {
            assert(v@[kc] != '.');
        } else if kc > k {
            assert(v@.take(kc)[k as int] == v@[k as int]);
            assert(!is_digit(v@.take(kc)[k as int]));
        }
        assert(kc == k);
    }
    let frac = fraction_micros(&v, k + 1);
    match parse_digits(&v, 0, k) {
        Some(ip) => {
            if ip > (u64::MAX - frac) / MICROS_PER_SECOND {
                assert(ip * 1_000_000 + frac > u64::MAX) by (nonlinear_arith)
                    requires ip > (u64::MAX - frac) as int / 1_000_000int, frac < 1_000_000;
                None
            } else {
                assert(ip * 1_000_000 + frac <= u64::MAX) by (nonlinear_arith)
                    requires ip <= (u64::MAX - frac) as int / 1_000_000int, frac < 1_000_000;
                Some(ip * MICROS_PER_SECOND + frac)
            }
        },
        None => {
            assert(digits_value(v@.take(k as int)) * 1_000_000 + frac > u64::MAX) by (nonlinear_arith)
                requires digits_value(v@.take(k as int)) > u64::MAX;
            None
        },
    }
}

/// The encoder's progress marker: `out_time_us=` and then digits only.
pub open spec fn progress_marker(line: Seq<char>) -> Option<nat> {
    let p = "out_time_us="@;
    if line.len() > p.len() && line.take(p.len() as int) == p && all_digits(line.skip(p.len() as int)) {
        Some(digits_value(line.skip(p.len() as int)))
    } else {
        None
    }
}

/// The microseconds of output that a progress marker on `line` reports; `None`
/// for any other line, or a value that does not fit.
pub fn parse_progress(line: &str) -> (r: Option<u64>)
    ensures
        match progress_marker(line@) {
            Some(m) => if m <= u64::MAX { r == Some(m as u64) } else { r is None },
            None => r is None,
        },
{
    let v = chars_of(line);
    let p = chars_of("out_time_us=");
    proof {
        reveal_strlit("out_time_us=");
    }
    let plen = p.len();
    if v.len() <= plen {
        return None;
    }
    let mut i: usize = 0;
    while i < plen
        invariant
            i <= plen == p@.len() < v@.len(),
            v@ == line@,
            p@ == "out_time_us="@,
            forall|m: int| 0 <= m < i ==> v@[m] == p@[m],
        decreases plen - i,
    {
        if v[i] != p[i] {
            assert(v@.take(plen as int)[i as int] != p@[i as int]);
            return None;
        }
        i = i + 1;
    }
    assert(v@.take(plen as int) =~= p@);
    assert(v@.subrange(plen as int, v@.len() as int) =~= v@.skip(plen as int));
    if !all_digits_in(&v, plen, v.len()) {
        return None;
    }
    parse_digits(&v, plen, v.len())
}

/// A probe found audio: it exited with success and its first output line
/// is not empty.
pub open spec fn reports_audio(x: FfprobeExit) -> bool {
    &&& x.exit_code == Some(0i32)
    &&& x.stdout_lines@.len() > 0
    &&& x.stdout_lines@[0]@.len() > 0
}

/// Whether the audio probe's output shows an audio stream.
pub fn has_audio_stream(x: &FfprobeExit) -> (r: bool)
    ensures
        r == reports_audio(*x),
{
    let exited_normally = match x.exit_code {
        Some(code) => code == 0,
        None => false,
    };
    exited_normally && x.stdout_lines.len() > 0 && !x.stdout_lines[0].as_str().is_empty()
}

/// The probe errors among `rs`, in order.
pub open spec fn probe_errors(rs: Seq<Result<FfprobeExit, FfprobeError>>) -> Seq<FfprobeError>
    decreases rs.len(),
{
    if rs.len() == 0 {
        seq![]
    } else {
        probe_errors(rs.drop_last()) + match rs.last() {
            Err(e) => seq![e],
            Ok(_) => seq![],
        }
    }
}

/// Gathers the audio probes of all sources, in source order: whether each
/// has audio, or, if any probe failed, every failure.
pub fn collect_audio(results: Vec<Result<FfprobeExit, FfprobeError>>) -> (r: Result<Vec<bool>, ExecuteError>)
    ensures
        probe_errors(results@).len() == 0 ==> (r matches Ok(bs) && bs@.len() == results@.len()
            && forall|i: int| 0 <= i < results@.len() ==> bs@[i] == reports_audio(#[trigger] results@[i]->Ok_0)),
        probe_errors(results@).len() > 0 ==> (r matches Err(ExecuteError::AudioFailures { inner_errors })
            && inner_errors@ == probe_errors(results@)),
{
    let mut flags: Vec<bool> = Vec::new();
    let mut errors: Vec<FfprobeError> = Vec::new();
    for res in it: results.into_iter()
        invariant
            it.seq() == results@,
            errors@ == probe_errors(results@.take(it.index() as int)),
            flags@.len() == it.index(),
            probe_errors(results@.take(it.index() as int)).len() == 0 ==> forall|m: int| 0 <= m < it.index() ==> flags@[m] == reports_audio(#[trigger] results@[m]->Ok_0),
    {
        let ghost i = it.index();
        assert(results@.take(i + 1).drop_last() =~= results@.take(i as int));
        assert(results@.take(i + 1).last() == res);
        match res {
            Ok(x) => {
                flags.push(has_audio_stream(&x));
            },
            Err(e) => {
                flags.push(false);
                errors.push(e);
            },
        }
    }
    assert(results@.take(results@.len() as int) =~= results@);
    if errors.len() > 0 {
        Err(ExecuteError::AudioFailures { inner_errors: errors })
    } else {
        Ok(flags)
    }
}

/// The duration one probe reported, in microseconds, when it reported one
/// that can be read.
pub open spec fn probe_duration(res: Result<FfprobeExit, FfprobeError>) -> Option<nat> {
    match res {
        Ok(x) => if x.stdout_lines@.len() > 0 {
            match decimal_micros(x.stdout_lines@[0]@) {
                Some(m) => if m <= u64::MAX { Some(m) } else { None },
                None => None,
            }
        } else {
            None
        },
        Err(_) => None,
    }
}

/// The sum of the durations, capped at `u64::MAX`, or the index of the first
/// probe whose duration could not be had.
pub open spec fn duration_scan(rs: Seq<Result<FfprobeExit, FfprobeError>>) -> Result<nat, int>
    decreases rs.len(),
{
    if rs.len() == 0 {
        Ok(0)
    } else {
        match duration_scan(rs.drop_last()) {
            Err(i) => Err(i),
            Ok(total) => match probe_duration(rs.last()) {
                Some(m) => Ok(if total + m > u64::MAX { u64::MAX as nat } else { total + m }),
                None => Err(rs.len() - 1),
            },
        }
    }
}

/// The error that a probe without a readable duration ends the job with.
pub open spec fn duration_failure(r: Result<u64, ExecuteError>, res: Result<FfprobeExit, FfprobeError>) -> bool {
    match res {
        Err(e) => r == Err::<u64, ExecuteError>(ExecuteError::Ffprobe { inner_error: e }),
        Ok(x) => if x.stdout_lines@.len() == 0 {
            r == Err::<u64, ExecuteError>(ExecuteError::NoDuration)
        } else {
            r matches Err(ExecuteError::InvalidDuration { line, .. }) && line == x.stdout_lines@[0]
        },
    }
}

/// The expected length of the output: the sum of every source's duration,
/// or the error of the first source, in source order, whose probe failed or
/// printed no readable duration.
pub fn total_duration(results: Vec<Result<FfprobeExit, FfprobeError>>) -> (r: Result<u64, ExecuteError>)
    ensures
        match duration_scan(results@) {
            Ok(total) => r == Ok::<u64, ExecuteError>(total as u64),
            Err(i) => 0 <= i < results@.len() && duration_failure(r, results@[i]),
        },
{
    let mut total: u64 = 0;
    for res in it: results.into_iter()
        invariant
            it.seq() == results@,
            duration_scan(results@.take(it.index() as int)) == Ok::<nat, int>(total as nat),
    {
        let ghost i = it.index();
        assert(results@.take(i + 1).drop_last() =~= results@.take(i as int));
        assert(results@.take(i + 1).last() == res);
        let failed: Result<u64, ExecuteError> = match res {
            Err(e) => Err(ExecuteError::Ffprobe { inner_error: e }),
            Ok(x) => {
                if x.stdout_lines.len() == 0 {
                    Err(ExecuteError::NoDuration)
                } else {
                    let line = &x.stdout_lines[0];
                    match parse_duration(line.as_str()) {
                        Some(m) => Ok(m),
                        None => Err(ExecuteError::InvalidDuration {
                            line: line.clone(),
                            inner_error: "not a decimal number of seconds".to_owned(),
                        }),
                    }
                }
            },
        };
        match failed {
            Ok(m) => {
                total = total.saturating_add(m);
            },
            Err(e) => {
                proof {
                    lemma_scan_error_persists(results@, i + 1);
                }
                return Err(e);
            },
        }
    }
    assert(results@.take(results@.len() as int) =~= results@);
    Ok(total)
}

/// Once a prefix of the probes fails, the scan of all of them fails there.
proof fn lemma_scan_error_persists(rs: Seq<Result<FfprobeExit, FfprobeError>>, i: int)
    requires
        0 <= i <= rs.len(),
        duration_scan(rs.take(i)) is Err,
    ensures
        duration_scan(rs) == duration_scan(rs.take(i)),
    decreases rs.len() - i,
{
    if i < rs.len() {
        assert(rs.take(i + 1).drop_last() =~= rs.take(i));
        lemma_scan_error_persists(rs, i + 1);
    } else {
        assert(rs.take(i) =~= rs);
    }
}

} // verus!
