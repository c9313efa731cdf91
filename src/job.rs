//! One job: the decisions that carry a plan from start to a final event.
//!
//! The caller does the outside work (writing the manifest, running the
//! probes and the encoder) and asks the [`Job`] for the progress event that
//! each step produces. Every event carries the job's id and the next number
//! of its private sequence, which starts at 0 and never skips or repeats.
use vstd::prelude::*;
use crate::command::{all_true, build_ffmpeg_args, encode_args, texts};
use crate::plan::{Plan, PlanModel};
use crate::probe::{parse_progress, progress_marker};
use crate::runner::{FfmpegError, FfmpegExit, FfprobeError};
use crate::text::{decimal, push_char, push_decimal, push_str};

verus! {

/// Why a job failed.
#[derive(Debug, Clone)]
pub enum ExecuteError {
    Ffmpeg { inner_error: FfmpegError },
    Ffprobe { inner_error: FfprobeError },
    Send { inner_error: String },
    CreateCatFile { catfile_path: String, inner_error: String },
    WriteToCatFile { catfile_path: String, inner_error: String },
    NoDuration,
    InvalidDuration { line: String, inner_error: String },
    AudioFailures { inner_errors: Vec<FfprobeError> },
}

/// What a progress event reports. Durations are in microseconds.
#[derive(Debug, Clone)]
pub enum ExecuteProgressPayload {
    Start { target_name: String },
    Prepared { cat_path: String },
    Info { source_count: usize, total_duration_us: u64, has_audio: bool, mode: String },
    Phase { phase: String },
    Warning { message: String },
    Finished(FfmpegExit),
    Failed(ExecuteError),
    Progress { total_us: u64, current_us: u64 },
    Spawned,
}

/// One progress event of one job.
#[derive(Debug, Clone)]
pub struct ExecuteProgress {
    pub id: u128,
    pub seq: usize,
    pub payload: ExecuteProgressPayload,
}

/// Where a job stands. The stages are passed in this order, none skipped;
/// `Failed` can follow any stage that is not final.
#[derive(Debug, Clone, Copy, PartialEq, Eq, Structural)]
pub enum Stage {
    Created,
    Started,
    CatfilePrepared,
    Probed,
    Encoding,
    Finished,
    Failed,
}

/// Whether no event can follow `s`.
pub open spec fn is_final(s: Stage) -> bool {
    s == Stage::Finished || s == Stage::Failed
}

/// How many entries hold.
pub open spec fn count_true(bs: Seq<bool>) -> nat
    decreases bs.len(),
{
    if bs.len() == 0 {
        0
    } else {
        count_true(bs.drop_last()) + if bs.last() { 1nat } else { 0nat }
    }
}

/// The warning for a filter-graph job where only `k` of `n` sources have audio.
pub open spec fn warning_text(k: nat, n: nat) -> Seq<char> {
    "Only "@ + decimal(k) + "/"@ + decimal(n) + " sources have audio - output will be video-only"@
}

/// The name of the encode strategy that a job reports.
pub open spec fn mode_name(filter: bool) -> Seq<char> {
    if filter { "filter_complex"@ } else { "concat"@ }
}

/// `p` with each single quote written as `'\''`, so that it can stand
/// between single quotes.
pub open spec fn escape_quotes(p: Seq<char>) -> Seq<char>
    decreases p.len(),
{
    if p.len() == 0 {
        seq![]
    } else {
        escape_quotes(p.drop_last()) + if p.last() == '\'' { "'\\''"@ } else { seq![p.last()] }
    }
}

/// One manifest line: `file '<path>'`.
pub open spec fn manifest_line(p: Seq<char>) -> Seq<char> {
    "file '"@ + escape_quotes(p) + "'"@
}

/// The manifest for the concat demuxer: one line per path, in order, joined
/// by newlines.
pub open spec fn manifest(ps: Seq<Seq<char>>) -> Seq<char>
    decreases ps.len(),
{
    if ps.len() == 0 {
        seq![]
    } else if ps.len() == 1 {
        manifest_line(ps[0])
    } else {
        manifest(ps.drop_last()) + "\n"@ + manifest_line(ps.last())
    }
}

/// How one character of a target name is written in a manifest name: `_`
/// as `__`, `.` as `_d`, any other character as itself.
pub open spec fn name_piece(c: char) -> Seq<char> {
    if c == '_' {
        seq!['_', '_']
    } else if c == '.' {
        seq!['_', 'd']
    } else {
        seq![c]
    }
}

/// A target name written without dots, one character at a time.
pub open spec fn encode_name(s: Seq<char>) -> Seq<char>
    decreases s.len(),
{
    if s.len() == 0 {
        seq![]
    } else {
        name_piece(s[0]) + encode_name(s.drop_first())
    }
}

/// The manifest's file name for a target: the encoded name, then `.catfile`.
/// Distinct targets get distinct names.
pub open spec fn catfile_name_of(leaf: Seq<char>) -> Seq<char> {
    encode_name(leaf) + ".catfile"@
}

/// Encoding a name one more character long appends that character's piece.
proof fn lemma_encode_push(s: Seq<char>, c: char)
    ensures
        encode_name(s.push(c)) == encode_name(s) + name_piece(c),
    decreases s.len(),
{
    if s.len() == 0 {
        assert(s.push(c).drop_first() =~= Seq::<char>::empty());
        assert(s.push(c)[0] == c);
        assert(encode_name(Seq::<char>::empty()) == Seq::<char>::empty());
        assert(encode_name(s.push(c)) == name_piece(c) + encode_name(Seq::<char>::empty()));
        assert(encode_name(s) == Seq::<char>::empty());
        assert(encode_name(s.push(c)) =~= encode_name(s) + name_piece(c));
    } else {
        assert(s.push(c).drop_first() =~= s.drop_first().push(c));
        lemma_encode_push(s.drop_first(), c);
        assert(s.push(c)[0] == s[0]);
        assert(encode_name(s.push(c)) =~= encode_name(s) + name_piece(c));
    }
}

/// The encoding can be read back: equal encodings come from equal names.
pub proof fn lemma_encode_injective(a: Seq<char>, b: Seq<char>)
    requires
        encode_name(a) == encode_name(b),
    ensures
        a == b,
    decreases a.len(),
{
    let ea = encode_name(a);
    if a.len() == 0 {
        if b.len() > 0 {
            assert(encode_name(b).len() >= name_piece(b[0]).len());
        }
        assert(a =~= b);
    } else {
        if b.len() == 0 {
            assert(ea.len() >= name_piece(a[0]).len());
            assert(false);
        }
        let (x, y) = (a[0], b[0]);
        let (px, py) = (name_piece(x), name_piece(y));
        assert(ea == px + encode_name(a.drop_first()));
        assert(ea == py + encode_name(b.drop_first()));
        assert(ea[0] == px[0] && ea[0] == py[0]);
        if px.len() == 2 {
            assert(ea[1] == px[1]);
        }
        if py.len() == 2 {
            assert(ea[1] == py[1]);
        }
        assert(x == y);
        assert(encode_name(a.drop_first()) =~= ea.subrange(px.len() as int, ea.len() as int));
        assert(encode_name(b.drop_first()) =~= ea.subrange(py.len() as int, ea.len() as int));
        lemma_encode_injective(a.drop_first(), b.drop_first());
        assert(a =~= seq![x] + a.drop_first());
        assert(b =~= seq![y] + b.drop_first());
    }
}

/// Distinct targets get distinct manifest names.
pub proof fn lemma_catfile_names_distinct(a: Seq<char>, b: Seq<char>)
    requires
        catfile_name_of(a) == catfile_name_of(b),
    ensures
        a == b,
{
    let (ea, eb) = (encode_name(a), encode_name(b));
    let suffix = ".catfile"@;
    assert(catfile_name_of(a).len() == ea.len() + suffix.len());
    assert(catfile_name_of(b).len() == eb.len() + suffix.len());
    assert(ea.len() == eb.len());
    assert(ea =~= catfile_name_of(a).subrange(0, ea.len() as int));
    assert(eb =~= catfile_name_of(b).subrange(0, eb.len() as int));
    lemma_encode_injective(a, b);
}

fn push_escaped(s: &mut String, p: &str)
    ensures
        final(s)@ == old(s)@ + escape_quotes(p@),
{
    let v = crate::text::chars_of(p);
    let ghost start = s@;
    let mut i: usize = 0;
    while i < v.len()
        invariant
            i <= v@.len(),
            v@ == p@,
            s@ == start + escape_quotes(v@.take(i as int)),
        decreases v.len() - i,
    {
        assert(v@.take(i + 1).drop_last() =~= v@.take(i as int));
        if v[i] == '\'' {
            push_str(s, "'\\''");
        } else {
            push_char(s, v[i]);
        }
        assert(s@ =~= start + escape_quotes(v@.take(i + 1)));
        i = i + 1;
    }
    assert(v@.take(v@.len() as int) =~= v@);
}

/// The mathematical content of a [`Job`].
pub ghost struct JobView {
    pub id: u128,
    pub stage: Stage,
    pub plan: PlanModel,
    /// Every event the job has produced, oldest first.
    pub log: Seq<ExecuteProgress>,
}

/// The state of one job.
pub struct Job {
    id: u128,
    next_seq: usize,
    stage: Stage,
    plan: Plan,
    log: Ghost<Seq<ExecuteProgress>>,
}

/// Relies on `uuid::Uuid::new_v4` and `Uuid::as_u128`: a random version-4
/// UUID as an integer, whose version field (bits 76 to 79) holds 4.
#[verifier::external_body]
fn new_job_id() -> (r: u128)
    ensures
        (r >> 76u128) & 0xfu128 == 4,
{
    uuid::Uuid::new_v4().as_u128()
}

impl View for Job {
    type V = JobView;

    closed spec fn view(&self) -> JobView {
        JobView { id: self.id, stage: self.stage, plan: self.plan@, log: self.log@ }
    }
}

impl Job {
    /// The job's bookkeeping is consistent: event `i` of the log is number `i`
    /// and carries the job's id.
    pub closed spec fn wf(&self) -> bool {
        &&& self.next_seq == self.log@.len()
        &&& forall|i: int| 0 <= i < self.log@.len() ==> (#[trigger] self.log@[i]).seq == i
            && self.log@[i].id == self.id
    }

    /// Whether `n` more events can still be numbered.
    pub open spec fn has_room(&self, n: nat) -> bool {
        self@.log.len() + n <= usize::MAX
    }

    /// A new job for `plan` under the id `id`.
    pub fn with_id(plan: Plan, id: u128) -> (r: Job)
        ensures
            r.wf(),
            r@ == (JobView { id, stage: Stage::Created, plan: plan@, log: seq![] }),
            r.has_room(2),
    {
        Job { id, next_seq: 0, stage: Stage::Created, plan, log: Ghost(Seq::empty()) }
    }

    /// A new job for `plan` under a fresh random id: a version-4 UUID.
    pub fn new(plan: Plan) -> (r: Job)
        ensures
            r.wf(),
            (r@.id >> 76u128) & 0xfu128 == 4,
            r@.stage == Stage::Created,
            r@.plan == plan@,
            r@.log.len() == 0,
            r.has_room(2),
    {
        Job::with_id(plan, new_job_id())
    }

    /// The job's id.
    pub fn id(&self) -> (r: u128)
        ensures
            r == self@.id,
    {
        self.id
    }

    /// The stage the job is in.
    pub fn stage(&self) -> (r: Stage)
        ensures
            r == self@.stage,
    {
        self.stage
    }

    /// The plan the job carries out.
    pub fn plan(&self) -> (r: &Plan)
        ensures
            r@ == self@.plan,
    {
        &self.plan
    }

    /// Whether two more events can still be numbered.
    pub fn can_emit(&self) -> (r: bool)
        requires
            self.wf(),
        ensures
            r == self.has_room(2),
    {
        self.next_seq <= usize::MAX - 2
    }

    fn emit(&mut self, payload: ExecuteProgressPayload) -> (r: ExecuteProgress)
        requires
            old(self).wf(),
            old(self).has_room(1),
        ensures
            final(self).wf(),
            r.id == old(self)@.id,
            r.seq == old(self)@.log.len(),
            r.payload == payload,
            final(self)@ == (JobView { log: old(self)@.log.push(r), ..old(self)@ }),
    {
        let r = ExecuteProgress { id: self.id, seq: self.next_seq, payload };
        self.next_seq = self.next_seq + 1;
        self.log = Ghost(self.log@.push(r));
        r
    }

    /// Starts the job: `Start` with the target's name.
    pub fn start(&mut self) -> (r: ExecuteProgress)
        requires
            old(self).wf(),
            old(self).has_room(1),
            old(self)@.stage == Stage::Created,
        ensures
            final(self).wf(),
            r.id == old(self)@.id,
            r.seq == old(self)@.log.len(),
            r.payload matches ExecuteProgressPayload::Start { target_name } && target_name@ == old(self)@.plan.target.leaf,
            final(self)@ == (JobView { stage: Stage::Started, log: old(self)@.log.push(r), ..old(self)@ }),
    {
        let target_name = self.plan.target_path.leaf.clone();
        let r = self.emit(ExecuteProgressPayload::Start { target_name });
        self.stage = Stage::Started;
        r
    }

    /// Announces a phase by its label; the stage does not change.
    pub fn phase(&mut self, label: &str) -> (r: ExecuteProgress)
        requires
            old(self).wf(),
            old(self).has_room(1),
            !is_final(old(self)@.stage),
        ensures
            final(self).wf(),
            r.id == old(self)@.id,
            r.seq == old(self)@.log.len(),
            r.payload matches ExecuteProgressPayload::Phase { phase } && phase@ == label@,
            final(self)@ == (JobView { log: old(self)@.log.push(r), ..old(self)@ }),
    {
        self.emit(ExecuteProgressPayload::Phase { phase: label.to_owned() })
    }

    /// The manifest was written at `cat_path`: `Prepared`.
    pub fn prepared(&mut self, cat_path: String) -> (r: ExecuteProgress)
        requires
            old(self).wf(),
            old(self).has_room(1),
            old(self)@.stage == Stage::Started,
        ensures
            final(self).wf(),
            r.id == old(self)@.id,
            r.seq == old(self)@.log.len(),
            r.payload == (ExecuteProgressPayload::Prepared { cat_path }),
            final(self)@ == (JobView { stage: Stage::CatfilePrepared, log: old(self)@.log.push(r), ..old(self)@ }),
    {
        let r = self.emit(ExecuteProgressPayload::Prepared { cat_path });
        self.stage = Stage::CatfilePrepared;
        r
    }
    /// Both probes are done: `Info`, and for a filter-graph job where some
    /// source lacks audio, a `Warning` that names how many have it.
    pub fn probed(&mut self, total_us: u64, has_audio: &Vec<bool>) -> (r: Vec<ExecuteProgress>)
        requires
            old(self).wf(),
            old(self).has_room(2),
            old(self)@.stage == Stage::CatfilePrepared,
            has_audio@.len() == old(self)@.plan.sources.len(),
        ensures
            final(self).wf(),
            ({
                let filter = old(self)@.plan.flags.contains(crate::plan::Flag::ConcatFilter);
                let audio = all_true(has_audio@);
                &&& r@.len() == if filter && !audio { 2int } else { 1int }
                &&& r@[0].payload matches ExecuteProgressPayload::Info { source_count, total_duration_us, has_audio: h, mode }
                    && source_count == has_audio@.len() && total_duration_us == total_us && h == audio
                    && mode@ == mode_name(filter)
                &&& filter && !audio ==> (r@[1].payload matches ExecuteProgressPayload::Warning { message }
                    && message@ == warning_text(count_true(has_audio@), has_audio@.len()))
            }),
            forall|k: int| 0 <= k < r@.len() ==> (#[trigger] r@[k]).id == old(self)@.id
                && r@[k].seq == old(self)@.log.len() + k,
            final(self)@ == (JobView { stage: Stage::Probed, log: old(self)@.log + r@, ..old(self)@ }),
    {
        let filter = self.plan.uses_filter_graph();
        let audio = crate::command::all_have_audio(has_audio);
        let mode = if filter { "filter_complex".to_owned() } else { "concat".to_owned() };
        let info = self.emit(ExecuteProgressPayload::Info {
            source_count: self.plan.sources.len(),
            total_duration_us: total_us,
            has_audio: audio,
            mode,
        });
        let mut out: Vec<ExecuteProgress> = Vec::new();
        out.push(info);
        if filter && !audio {
            let message = warning_message(count_audio(has_audio), has_audio.len());
            let warning = self.emit(ExecuteProgressPayload::Warning { message });
            out.push(warning);
        }
        self.stage = Stage::Probed;
        assert(self@.log =~= old(self)@.log + out@);
        out
    }

    /// Encoding begins: the `Encoding` phase.
    pub fn encoding(&mut self) -> (r: ExecuteProgress)
        requires
            old(self).wf(),
            old(self).has_room(1),
            old(self)@.stage == Stage::Probed,
        ensures
            final(self).wf(),
            r.id == old(self)@.id,
            r.seq == old(self)@.log.len(),
            r.payload matches ExecuteProgressPayload::Phase { phase } && phase@ == "Encoding"@,
            final(self)@ == (JobView { stage: Stage::Encoding, log: old(self)@.log.push(r), ..old(self)@ }),
    {
        let r = self.emit(ExecuteProgressPayload::Phase { phase: "Encoding".to_owned() });
        self.stage = Stage::Encoding;
        r
    }

    /// A line the encoder printed on standard output: `Progress` when it is
    /// a progress marker, nothing otherwise.
    pub fn progress(&mut self, total_us: u64, line: &str) -> (r: Option<ExecuteProgress>)
        requires
            old(self).wf(),
            old(self).has_room(1),
            old(self)@.stage == Stage::Encoding,
        ensures
            final(self).wf(),
            match progress_marker(line@) {
                Some(m) if m <= u64::MAX => r matches Some(e)
                    && e.id == old(self)@.id && e.seq == old(self)@.log.len()
                    && e.payload == (ExecuteProgressPayload::Progress { total_us, current_us: m as u64 })
                    && final(self)@ == (JobView { log: old(self)@.log.push(e), ..old(self)@ }),
                _ => r is None && *final(self) == *old(self),
            },
    {
        match parse_progress(line) {
            Some(current_us) => Some(self.emit(ExecuteProgressPayload::Progress { total_us, current_us })),
            None => None,
        }
    }

    /// The encoder exited: `Finished` with what it printed and its exit
    /// code, whatever the code is.
    pub fn finished(&mut self, exit: FfmpegExit) -> (r: ExecuteProgress)
        requires
            old(self).wf(),
            old(self).has_room(1),
            old(self)@.stage == Stage::Encoding,
        ensures
            final(self).wf(),
            r.id == old(self)@.id,
            r.seq == old(self)@.log.len(),
            r.payload == ExecuteProgressPayload::Finished(exit),
            final(self)@ == (JobView { stage: Stage::Finished, log: old(self)@.log.push(r), ..old(self)@ }),
    {
        let r = self.emit(ExecuteProgressPayload::Finished(exit));
        self.stage = Stage::Finished;
        r
    }

    /// The job failed with `err`: `Failed`.
    pub fn failed(&mut self, err: ExecuteError) -> (r: ExecuteProgress)
        requires
            old(self).wf(),
            old(self).has_room(1),
            !is_final(old(self)@.stage),
        ensures
            final(self).wf(),
            r.id == old(self)@.id,
            r.seq == old(self)@.log.len(),
            r.payload == ExecuteProgressPayload::Failed(err),
            final(self)@ == (JobView { stage: Stage::Failed, log: old(self)@.log.push(r), ..old(self)@ }),
    {
        let r = self.emit(ExecuteProgressPayload::Failed(err));
        self.stage = Stage::Failed;
        r
    }

    /// The file name of this job's manifest.
    pub fn catfile_name(&self) -> (r: String)
        ensures
            r@ == catfile_name_of(self@.plan.target.leaf),
            forall|other: Seq<char>| catfile_name_of(other) == r@ ==> other == self@.plan.target.leaf,
    {
        let v = crate::text::chars_of(self.plan.target_path.leaf.as_str());
        let mut s = String::new();
        let mut i: usize = 0;
        while i < v.len()
            invariant
                i <= v@.len(),
                s@ == encode_name(v@.take(i as int)),
            decreases v.len() - i,
        {
            let c = v[i];
            if c == '_' {
                push_str(&mut s, "__");
            } else if c == '.' {
                push_str(&mut s, "_d");
            } else {
                push_char(&mut s, c);
            }
            proof {
                reveal_strlit("__");
                reveal_strlit("_d");
                assert(v@.take(i + 1) =~= v@.take(i as int).push(c));
                lemma_encode_push(v@.take(i as int), c);
                assert(s@ =~= encode_name(v@.take(i as int)) + name_piece(c));
            }
            i = i + 1;
        }
        assert(v@.take(v@.len() as int) =~= v@);
        push_str(&mut s, ".catfile");
        assert forall|other: Seq<char>| catfile_name_of(other) == s@ implies other == self@.plan.target.leaf by {
            lemma_catfile_names_distinct(other, self@.plan.target.leaf);
        }
        s
    }

    /// The manifest that lists this job's sources for the concat demuxer.
    pub fn catfile_content(&self) -> (r: String)
        ensures
            r@ == manifest(crate::command::source_paths(self@.plan)),
    {
        let ghost ps = crate::command::source_paths(self@.plan);
        let mut s = String::new();
        let mut i: usize = 0;
        while i < self.plan.sources.len()
            invariant
                i <= self.plan.sources@.len(),
                ps == crate::command::source_paths(self.plan@),
                s@ == manifest(ps.take(i as int)),
            decreases self.plan.sources.len() - i,
        {
            assert(ps.take(i + 1).drop_last() =~= ps.take(i as int));
            if i > 0 {
                push_str(&mut s, "\n");
            }
            push_str(&mut s, "file '");
            push_escaped(&mut s, self.plan.sources[i].path.as_str());
            push_str(&mut s, "'");
            assert(i == 0 ==> ps.take(1)[0] == ps[0]);
            assert(s@ =~= manifest(ps.take(i + 1)));
            i = i + 1;
        }
        assert(ps.take(ps.len() as int) =~= ps);
        s
    }

    /// The encoder arguments for this job.
    pub fn ffmpeg_args(&self, has_audio: &Vec<bool>, catfile_path: &str) -> (r: Vec<String>)
        ensures
            texts(r@) == encode_args(self@.plan, has_audio@, catfile_path@),
    {
        build_ffmpeg_args(&self.plan, has_audio, catfile_path)
    }
}

/// The number of sources with audio.
fn count_audio(has_audio: &Vec<bool>) -> (r: usize)
    ensures
        r == count_true(has_audio@),
{
    let mut n: usize = 0;
    let mut i: usize = 0;
    while i < has_audio.len()
        invariant
            i <= has_audio@.len(),
            n == count_true(has_audio@.take(i as int)),
            n <= i,
        decreases has_audio.len() - i,
    {
        assert(has_audio@.take(i + 1).drop_last() =~= has_audio@.take(i as int));
        if has_audio[i] {
            n = n + 1;
        }
        i = i + 1;
    }
    assert(has_audio@.take(has_audio@.len() as int) =~= has_audio@);
    n
}

fn warning_message(k: usize, n: usize) -> (r: String)
    ensures
        r@ == warning_text(k as nat, n as nat),
{
    let mut s = String::new();
    push_str(&mut s, "Only ");
    push_decimal(&mut s, k as u64);
    push_str(&mut s, "/");
    push_decimal(&mut s, n as u64);
    push_str(&mut s, " sources have audio - output will be video-only");
    s
}

/// The events of one job are numbered 0, 1, 2, ... in the order they were
/// produced, with no gaps, and all carry the job's id.
pub proof fn lemma_event_numbers(job: Job)
    requires
        job.wf(),
    ensures
        forall|i: int| 0 <= i < job@.log.len() ==> (#[trigger] job@.log[i]).seq == i && job@.log[i].id == job@.id,
        forall|i: int, k: int| 0 <= i < k < job@.log.len() ==> (#[trigger] job@.log[i]).seq < (#[trigger] job@.log[k]).seq,
{
}

} // verus!
