//! Locating the encoder and probe executables.
//!
//! An explicit path is tried first, then each directory of the search path in
//! order. Whether a candidate is a usable file is asked of the caller's
//! `validate`, which returns the path to use when it is.
use vstd::prelude::*;
use crate::plan::{PathModel, PlanPath, resolves_to};

verus! {

/// The resolved executables, handed to whatever runs them.
#[derive(Debug, Clone)]
pub struct Binaries {
    pub ffmpeg: String,
    pub ffprobe: String,
}

/// Why an executable could not be located.
#[derive(Debug, Clone)]
pub enum BinaryError {
    NotFound { bin: String },
}

/// `c` is the executable `bin` inside `dir`; an empty `dir` stands for the
/// current directory.
pub open spec fn candidate_in(c: Seq<char>, dir: Seq<char>, bin: Seq<char>) -> bool {
    if dir.len() == 0 {
        c == bin
    } else {
        resolves_to(PathModel { path: c, leaf: bin }, dir, bin)
    }
}

/// `cands` are the places to look for `bin`: `given` if there is one, then
/// `bin` in each of `dirs`.
pub open spec fn candidates_for(cands: Seq<String>, bin: Seq<char>, given: Option<String>, dirs: Seq<String>) -> bool {
    let off: int = if given is Some { 1 } else { 0 };
    &&& cands.len() == off + dirs.len()
    &&& given is Some ==> cands[0] == given->Some_0
    &&& forall|k: int| 0 <= k < dirs.len() ==> candidate_in(#[trigger] cands[off + k]@, dirs[k]@, bin)
}

/// The candidates were asked of `validate` in order, `outs` holding the
/// answers, and the search stopped at the first `Some`, which `r` returns;
/// with no `Some` among them all, `r` is `NotFound`.
pub open spec fn search_result<F: Fn(&String) -> Option<String>>(validate: F, cands: Seq<String>, outs: Seq<Option<String>>, bin: Seq<char>, r: Result<String, BinaryError>) -> bool {
    &&& outs.len() <= cands.len()
    &&& forall|k: int| 0 <= k < outs.len() ==> validate.ensures((&cands[k],), #[trigger] outs[k])
    &&& forall|k: int| 0 <= k < outs.len() - 1 ==> (#[trigger] outs[k]) is None
    &&& match r {
        Ok(p) => outs.len() > 0 && outs.last() == Some(p),
        Err(BinaryError::NotFound { bin: b }) => b@ == bin && outs.len() == cands.len()
            && (outs.len() == 0 || outs.last() is None),
    }
}

/// `r` is what searching for `bin` gives.
pub open spec fn located<F: Fn(&String) -> Option<String>>(validate: F, bin: Seq<char>, given: Option<String>, dirs: Seq<String>, r: Result<String, BinaryError>) -> bool {
    exists|cands: Seq<String>, outs: Seq<Option<String>>| {
        &&& candidates_for(cands, bin, given, dirs)
        &&& search_result(validate, cands, outs, bin, r)
    }
}

fn candidate(dir: &String, bin: &str) -> (r: String)
    ensures
        candidate_in(r@, dir@, bin@),
{
    if dir.as_str().is_empty() {
        bin.to_owned()
    } else {
        PlanPath::new_relative_to(bin, dir.as_str()).path
    }
}

fn find_binary<F: Fn(&String) -> Option<String>>(bin: &str, given: Option<String>, search_dirs: &Vec<String>, validate: &F) -> (r: Result<String, BinaryError>)
    requires
        forall|p: &String| validate.requires((p,)),
    ensures
        located(*validate, bin@, given, search_dirs@, r),
{
    let ghost g = given;
    let mut cands: Vec<String> = Vec::new();
    if let Some(p) = given {
        cands.push(p);
    }
    let off = cands.len();
    let mut k: usize = 0;
    while k < search_dirs.len()
        invariant
            k <= search_dirs@.len(),
            off == (if g is Some { 1usize } else { 0usize }),
            cands@.len() == off + k,
            g is Some ==> cands@[0] == g->Some_0,
            forall|m: int| 0 <= m < k ==> candidate_in(#[trigger] cands@[off + m]@, search_dirs@[m]@, bin@),
        decreases search_dirs.len() - k,
    {
        let c = candidate(&search_dirs[k], bin);
        cands.push(c);
        k = k + 1;
    }
    assert(candidates_for(cands@, bin@, g, search_dirs@));
    let mut outs: Ghost<Seq<Option<String>>> = Ghost(Seq::empty());
    let mut i: usize = 0;
    while i < cands.len()
        invariant
            g == given,
            candidates_for(cands@, bin@, g, search_dirs@),
            i <= cands@.len(),
            outs@.len() == i,
            forall|p: &String| validate.requires((p,)),
            forall|m: int| 0 <= m < i ==> validate.ensures((&cands@[m],), #[trigger] outs@[m]),
            forall|m: int| 0 <= m < i ==> (#[trigger] outs@[m]) is None,
        decreases cands.len() - i,
    {
        let res = validate(&cands[i]);
        proof {
            outs@ = outs@.push(res);
        }
        if let Some(p) = res {
            let r: Result<String, BinaryError> = Ok(p);
            assert(candidates_for(cands@, bin@, g, search_dirs@));
            assert(search_result(*validate, cands@, outs@, bin@, r));
            return r;
        }
        i = i + 1;
    }
    let r: Result<String, BinaryError> = Err(BinaryError::NotFound { bin: bin.to_owned() });
    assert(candidates_for(cands@, bin@, g, search_dirs@));
    assert(search_result(*validate, cands@, outs@, bin@, r));
    r
}

/// Locates the encoder and then the probe, each from its explicit path if
/// that validates, else from the search directories.
pub fn find_binaries<F: Fn(&String) -> Option<String>>(ffmpeg: Option<String>, ffprobe: Option<String>, search_dirs: &Vec<String>, validate: &F) -> (r: Result<Binaries, BinaryError>)
    requires
        forall|p: &String| validate.requires((p,)),
    ensures
        exists|a: Result<String, BinaryError>| {
            &&& located(*validate, "ffmpeg"@, ffmpeg, search_dirs@, a)
            &&& match a {
                Err(e) => r == Err::<Binaries, BinaryError>(e),
                Ok(fp) => exists|b: Result<String, BinaryError>| {
                    &&& located(*validate, "ffprobe"@, ffprobe, search_dirs@, b)
                    &&& match b {
                        Err(e) => r == Err::<Binaries, BinaryError>(e),
                        Ok(pp) => r == Ok::<Binaries, BinaryError>(Binaries { ffmpeg: fp, ffprobe: pp }),
                    }
                },
            }
        },
{
    let a = find_binary("ffmpeg", ffmpeg, search_dirs, validate);
    let fp = match a {
        Ok(p) => p,
        Err(e) => {
            return Err(e);
        },
    };
    let b = find_binary("ffprobe", ffprobe, search_dirs, validate);
    match b {
        Ok(pp) => Ok(Binaries { ffmpeg: fp, ffprobe: pp }),
        Err(e) => Err(e),
    }
}

/// The encoder's path.
pub fn get_ffmpeg(binaries: &Binaries) -> (r: &String)
    ensures
        r == &binaries.ffmpeg,
{
    &binaries.ffmpeg
}

/// The probe's path.
pub fn get_ffprobe(binaries: &Binaries) -> (r: &String)
    ensures
        r == &binaries.ffprobe,
{
    &binaries.ffprobe
}

} // verus!
