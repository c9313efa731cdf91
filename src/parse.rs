//! Compiling spec text into validated plans.
//!
//! A spec is line-oriented. A target line is `<name>:` with no leading white
//! space; a source line is a tab followed by `<name>`; a blank line closes the
//! open block. Names are trimmed and resolved against the target and source
//! directories.
use vstd::prelude::*;
use crate::plan::{Plan, PlanModel, PlanPath, resolves_to};
use crate::text::{chars_of, is_white_space, is_whitespace, string_of, trim, trim_end, trim_range, trim_start};

verus! {

// ---------------------------------------------------------------------------
// Lines

/// `l` without one trailing carriage return.
pub open spec fn strip_cr(l: Seq<char>) -> Seq<char> {
    if l.len() > 0 && l.last() == '\r' {
        l.drop_last()
    } else {
        l
    }
}

/// Reading `t` left to right: the finished lines, and the line in progress.
pub open spec fn scan_lines(t: Seq<char>) -> (Seq<Seq<char>>, Seq<char>)
    decreases t.len(),
{
    if t.len() == 0 {
        (seq![], seq![])
    } else {
        let (done, cur) = scan_lines(t.drop_last());
        if t.last() == '\n' {
            (done.push(strip_cr(cur)), seq![])
        } else {
            (done, cur.push(t.last()))
        }
    }
}

/// The lines of `t`: split at each newline, a carriage return before the
/// newline dropped, and no empty line after a final newline.
pub open spec fn spec_lines(t: Seq<char>) -> Seq<Seq<char>> {
    let (done, cur) = scan_lines(t);
    if cur.len() > 0 {
        done.push(cur)
    } else {
        done
    }
}

/// The text that each range of `rs` covers in `v`.
pub open spec fn range_texts(v: Seq<char>, rs: Seq<(usize, usize)>) -> Seq<Seq<char>> {
    rs.map_values(|r: (usize, usize)| v.subrange(r.0 as int, r.1 as int))
}

/// The ranges that hold the lines of `v`.
fn split_lines(v: &Vec<char>) -> (r: Vec<(usize, usize)>)
    ensures
        range_texts(v@, r@) == spec_lines(v@),
        forall|k: int| 0 <= k < r@.len() ==> r@[k].0 <= #[trigger] r@[k].1 <= v@.len(),
{
    let mut out: Vec<(usize, usize)> = Vec::new();
    let mut start: usize = 0;
    let mut i: usize = 0;
    while i < v.len()
        invariant
            start <= i <= v@.len(),
            scan_lines(v@.take(i as int)) == (range_texts(v@, out@), v@.subrange(start as int, i as int)),
            forall|k: int| 0 <= k < out@.len() ==> out@[k].0 <= #[trigger] out@[k].1 <= v@.len(),
        decreases v.len() - i,
    {
        assert(v@.take(i + 1).drop_last() =~= v@.take(i as int));
        assert(v@.take(i + 1).last() == v@[i as int]);
        if v[i] == '\n' {
            let mut end = i;
            if end > start && v[end - 1] == '\r' {
                end = end - 1;
                assert(v@.subrange(start as int, i as int).drop_last() =~= v@.subrange(start as int, end as int));
            }
            let ghost before = out@;
            out.push((start, end));
            assert(range_texts(v@, out@) =~= range_texts(v@, before).push(v@.subrange(start as int, end as int)));
            start = i + 1;
            assert(v@.subrange(start as int, i + 1) =~= Seq::<char>::empty());
        } else {
            assert(v@.subrange(start as int, i + 1) =~= v@.subrange(start as int, i as int).push(v@[i as int]));
        }
        i = i + 1;
    }
    assert(v@.take(v@.len() as int) =~= v@);
    if start < v.len() {
        let ghost before = out@;
        out.push((start, v.len()));
        assert(range_texts(v@, out@) =~= range_texts(v@, before).push(v@.subrange(start as int, v@.len() as int)));
    }
    out
}

// ---------------------------------------------------------------------------
// Line kinds

/// What one line of a spec is.
pub ghost enum LineKind {
    Blank,
    Target(Seq<char>),
    Source(Seq<char>),
    Invalid,
}

/// The kind of `line`, with the trimmed name of a target or source line.
pub open spec fn classify(line: Seq<char>) -> LineKind {
    if trim(line).len() == 0 {
        LineKind::Blank
    } else if line.len() >= 2 && line.last() == ':' && !is_white_space(line[0]) {
        LineKind::Target(trim(line.drop_last()))
    } else if line[0] == '\t' {
        LineKind::Source(trim(line.drop_first()))
    } else {
        LineKind::Invalid
    }
}

enum Line {
    Blank,
    Target(String),
    Source(String),
    Invalid,
}

spec fn line_matches(l: Line, k: LineKind) -> bool {
    match (l, k) {
        (Line::Blank, LineKind::Blank) => true,
        (Line::Target(s), LineKind::Target(t)) => s@ == t,
        (Line::Source(s), LineKind::Source(t)) => s@ == t,
        (Line::Invalid, LineKind::Invalid) => true,
        _ => false,
    }
}

fn classify_line(v: &Vec<char>, lo: usize, hi: usize) -> (r: Line)
    requires
        lo <= hi <= v@.len(),
    ensures
        line_matches(r, classify(v@.subrange(lo as int, hi as int))),
{
    let ghost line = v@.subrange(lo as int, hi as int);
    let (a, b) = trim_range(v, lo, hi);
    if a == b {
        return Line::Blank;
    }
    if hi - lo >= 2 && v[hi - 1] == ':' && !is_whitespace(v[lo]) {
        assert(line.drop_last() =~= v@.subrange(lo as int, hi - 1));
        let (a2, b2) = trim_range(v, lo, hi - 1);
        return Line::Target(string_of(v, a2, b2));
    }
    if v[lo] == '\t' {
        assert(line.drop_first() =~= v@.subrange(lo + 1, hi as int));
        let (a2, b2) = trim_range(v, lo + 1, hi);
        return Line::Source(string_of(v, a2, b2));
    }
    Line::Invalid
}


// ---------------------------------------------------------------------------
// Errors

/// A problem found by the validation pass.
#[derive(Debug, Clone)]
pub enum ValidationError {
    DuplicateSource { source_name: String, target_name: String },
    MissingSource {
        source_name: String,
        source_path: String,
        target_name: String,
        inner_error: String,
    },
    DuplicateTarget { target_name: String },
}

/// The mathematical content of a [`ValidationError`].
pub ghost enum ValidationErrorView {
    DuplicateSource { source_name: Seq<char>, target_name: Seq<char> },
    MissingSource {
        source_name: Seq<char>,
        source_path: Seq<char>,
        target_name: Seq<char>,
        inner_error: Seq<char>,
    },
    DuplicateTarget { target_name: Seq<char> },
}

impl View for ValidationError {
    type V = ValidationErrorView;

    open spec fn view(&self) -> ValidationErrorView {
        match self {
            ValidationError::DuplicateSource { source_name, target_name } => {
                ValidationErrorView::DuplicateSource {
                    source_name: source_name@,
                    target_name: target_name@,
                }
            },
            ValidationError::MissingSource { source_name, source_path, target_name, inner_error } => {
                ValidationErrorView::MissingSource {
                    source_name: source_name@,
                    source_path: source_path@,
                    target_name: target_name@,
                    inner_error: inner_error@,
                }
            },
            ValidationError::DuplicateTarget { target_name } => {
                ValidationErrorView::DuplicateTarget { target_name: target_name@ }
            },
        }
    }
}

/// Why a spec could not be compiled.
#[derive(Debug, Clone)]
pub enum ParseError {
    SpecNotFound { path: String, inner_error: String },
    Open { path: String, inner_error: String },
    ReadLine { inner_error: String },
    MissingSources { target_name: String },
    MissingTarget { source_name: String },
    Validation { errors: Vec<ValidationError> },
    InvalidLine { line: String },
}

/// The mathematical content of a [`ParseError`].
pub ghost enum ParseErrorView {
    SpecNotFound { path: Seq<char>, inner_error: Seq<char> },
    Open { path: Seq<char>, inner_error: Seq<char> },
    ReadLine { inner_error: Seq<char> },
    MissingSources { target_name: Seq<char> },
    MissingTarget { source_name: Seq<char> },
    Validation { errors: Seq<ValidationErrorView> },
    InvalidLine { line: Seq<char> },
}

/// The views of a sequence of validation errors.
pub open spec fn error_views(es: Seq<ValidationError>) -> Seq<ValidationErrorView> {
    es.map_values(|e: ValidationError| e@)
}

impl View for ParseError {
    type V = ParseErrorView;

    open spec fn view(&self) -> ParseErrorView {
        match self {
            ParseError::SpecNotFound { path, inner_error } => {
                ParseErrorView::SpecNotFound { path: path@, inner_error: inner_error@ }
            },
            ParseError::Open { path, inner_error } => {
                ParseErrorView::Open { path: path@, inner_error: inner_error@ }
            },
            ParseError::ReadLine { inner_error } => {
                ParseErrorView::ReadLine { inner_error: inner_error@ }
            },
            ParseError::MissingSources { target_name } => {
                ParseErrorView::MissingSources { target_name: target_name@ }
            },
            ParseError::MissingTarget { source_name } => {
                ParseErrorView::MissingTarget { source_name: source_name@ }
            },
            ParseError::Validation { errors } => {
                ParseErrorView::Validation { errors: error_views(errors@) }
            },
            ParseError::InvalidLine { line } => ParseErrorView::InvalidLine { line: line@ },
        }
    }
}

// ---------------------------------------------------------------------------
// Grammar

/// A plan as the grammar sees it: the names only.
pub ghost struct Draft {
    pub target: Seq<char>,
    pub sources: Seq<Seq<char>>,
}

/// The finished drafts once the open one, if any, is closed.
pub open spec fn close(done: Seq<Draft>, open: Option<Draft>) -> Seq<Draft> {
    match open {
        Some(d) => done.push(d),
        None => done,
    }
}

/// One line read in the state `(done, open)`.
pub open spec fn step(done: Seq<Draft>, open: Option<Draft>, line: Seq<char>) -> Result<
    (Seq<Draft>, Option<Draft>),
    ParseErrorView,
> {
    match classify(line) {
        LineKind::Blank => Ok((close(done, open), None)),
        LineKind::Target(name) => {
            let fresh = Draft { target: name, sources: seq![] };
            match open {
                Some(d) => if d.sources.len() == 0 {
                    Err(ParseErrorView::MissingSources { target_name: d.target })
                } else {
                    Ok((done.push(d), Some(fresh)))
                },
                None => Ok((done, Some(fresh))),
            }
        },
        LineKind::Source(name) => match open {
            Some(d) => Ok((done, Some(Draft { target: d.target, sources: d.sources.push(name) }))),
            None => Err(ParseErrorView::MissingTarget { source_name: name }),
        },
        LineKind::Invalid => Err(ParseErrorView::InvalidLine { line }),
    }
}

/// The state after reading `lines`, or the first grammar error.
pub open spec fn run(lines: Seq<Seq<char>>) -> Result<(Seq<Draft>, Option<Draft>), ParseErrorView>
    decreases lines.len(),
{
    if lines.len() == 0 {
        Ok((seq![], None))
    } else {
        match run(lines.drop_last()) {
            Ok((done, open)) => step(done, open, lines.last()),
            Err(e) => Err(e),
        }
    }
}

/// The drafts that `lines` describe, in file order, or the grammar error.
pub open spec fn parse_lines(lines: Seq<Seq<char>>) -> Result<Seq<Draft>, ParseErrorView> {
    match run(lines) {
        Ok((done, open)) => Ok(close(done, open)),
        Err(e) => Err(e),
    }
}

/// The names of a plan.
pub open spec fn draft_of(p: PlanModel) -> Draft {
    Draft { target: p.target.leaf, sources: p.sources.map_values(|s: crate::plan::PathModel| s.leaf) }
}

/// `p` is the plan for `d`, its names resolved in the two directories.
pub open spec fn plan_compiled(p: PlanModel, d: Draft, target_dir: Seq<char>, sources_dir: Seq<char>) -> bool {
    &&& resolves_to(p.target, target_dir, d.target)
    &&& p.sources.len() == d.sources.len()
    &&& forall|j: int| 0 <= j < d.sources.len() ==> resolves_to(#[trigger] p.sources[j], sources_dir, d.sources[j])
    &&& p.flags.len() == 0
}

/// The plans of `ps`, in order, are those for the drafts `ds`.
pub open spec fn compiled_from(ps: Seq<Plan>, ds: Seq<Draft>, target_dir: Seq<char>, sources_dir: Seq<char>) -> bool {
    &&& ps.len() == ds.len()
    &&& forall|i: int| 0 <= i < ds.len() ==> plan_compiled(#[trigger] ps[i]@, ds[i], target_dir, sources_dir)
}

/// Appending a plan and its draft keeps the two sequences in step.
proof fn lemma_compiled_push(ps: Seq<Plan>, ds: Seq<Draft>, p: Plan, d: Draft, target_dir: Seq<char>, sources_dir: Seq<char>)
    requires
        compiled_from(ps, ds, target_dir, sources_dir),
        plan_compiled(p@, d, target_dir, sources_dir),
    ensures
        compiled_from(ps.push(p), ds.push(d), target_dir, sources_dir),
{
    assert forall|i: int| 0 <= i < ds.push(d).len() implies plan_compiled(#[trigger] ps.push(p)[i]@, ds.push(d)[i], target_dir, sources_dir) by {
        if i < ds.len() {
            assert(ps.push(p)[i] == ps[i]);
        }
    }
}

/// Once a prefix of the lines fails, the whole fails with the same error.
proof fn lemma_error_persists(lines: Seq<Seq<char>>, i: int)
    requires
        0 <= i <= lines.len(),
        run(lines.take(i)) is Err,
    ensures
        run(lines) == run(lines.take(i)),
    decreases lines.len() - i,
{
    if i < lines.len() {
        assert(lines.take(i + 1).drop_last() =~= lines.take(i));
        lemma_error_persists(lines, i + 1);
    } else {
        assert(lines.take(i) =~= lines);
    }
}

/// Runs the grammar over the lines `ranges` of `v`.
fn compile_lines(v: &Vec<char>, ranges: &Vec<(usize, usize)>, target_dir: &str, sources_dir: &str) -> (r: Result<Vec<Plan>, ParseError>)
    requires
        forall|k: int| 0 <= k < ranges@.len() ==> ranges@[k].0 <= #[trigger] ranges@[k].1 <= v@.len(),
    ensures
        match parse_lines(range_texts(v@, ranges@)) {
            Ok(ds) => r is Ok && compiled_from(r->Ok_0@, ds, target_dir@, sources_dir@),
            Err(e) => r is Err && r->Err_0@ == e,
        },
{
    let ghost lines = range_texts(v@, ranges@);
    let mut done: Vec<Plan> = Vec::new();
    let mut open: Option<Plan> = None;
    let mut i: usize = 0;
    while i < ranges.len()
        invariant
            i <= ranges@.len(),
            lines == range_texts(v@, ranges@),
            forall|k: int| 0 <= k < ranges@.len() ==> ranges@[k].0 <= #[trigger] ranges@[k].1 <= v@.len(),
            run(lines.take(i as int)) matches Ok((ds, od)) && {
                &&& compiled_from(done@, ds, target_dir@, sources_dir@)
                &&& match (open, od) {
                    (Some(p), Some(d)) => plan_compiled(p@, d, target_dir@, sources_dir@),
                    (None, None) => true,
                    _ => false,
                }
            },
        decreases ranges.len() - i,
    {
        let (lo, hi) = ranges[i];
        assert(lines.take(i + 1).drop_last() =~= lines.take(i as int));
        assert(lines.take(i + 1).last() == v@.subrange(lo as int, hi as int));
        let ghost st = run(lines.take(i as int));
        let ghost ds = st->Ok_0.0;
        let ghost od = st->Ok_0.1;
        match classify_line(v, lo, hi) {
            Line::Blank => {
                if let Some(p) = open.take() {
                    proof {
                        lemma_compiled_push(done@, ds, p, od->Some_0, target_dir@, sources_dir@);
                    }
                    done.push(p);
                }
            },
            Line::Target(name) => {
                if let Some(p) = open.take() {
                    if p.sources.len() == 0 {
                        proof {
                            lemma_error_persists(lines, i + 1);
                        }
                        return Err(ParseError::MissingSources { target_name: p.target_path.leaf.clone() });
                    }
                    proof {
                        lemma_compiled_push(done@, ds, p, od->Some_0, target_dir@, sources_dir@);
                    }
                    done.push(p);
                }
                let fresh = Plan {
                    target_path: PlanPath::new_relative_to(name.as_str(), target_dir),
                    sources: Vec::new(),
                    flags: Vec::new(),
                };
                assert(fresh@.sources =~= Seq::<crate::plan::PathModel>::empty());
                open = Some(fresh);
            },
            Line::Source(name) => {
                match open.take() {
                    None => {
                        proof {
                            lemma_error_persists(lines, i + 1);
                        }
                        return Err(ParseError::MissingTarget { source_name: name });
                    },
                    Some(mut p) => {
                        let src = PlanPath::new_relative_to(name.as_str(), sources_dir);
                        let ghost before = p@;
                        p.sources.push(src);
                        proof {
                            let d = od->Some_0;
                            assert(p@.sources =~= before.sources.push(src@));
                            assert(plan_compiled(p@, Draft { target: d.target, sources: d.sources.push(name@) }, target_dir@, sources_dir@));
                        }
                        open = Some(p);
                    },
                }
            },
            Line::Invalid => {
                proof {
                    lemma_error_persists(lines, i + 1);
                }
                return Err(ParseError::InvalidLine { line: string_of(v, lo, hi) });
            },
        }
        i = i + 1;
    }
    assert(lines.take(ranges@.len() as int) =~= lines);
    let ghost fin = run(lines);
    if let Some(p) = open.take() {
        proof {
            lemma_compiled_push(done@, fin->Ok_0.0, p, fin->Ok_0.1->Some_0, target_dir@, sources_dir@);
        }
        done.push(p);
    }
    Ok(done)
}

// ---------------------------------------------------------------------------
// Validation

/// Whether `xs[j]` equals an element before it.
pub open spec fn repeats_earlier(xs: Seq<Seq<char>>, j: int) -> bool {
    exists|k: int| 0 <= k < j && xs[k] == xs[j]
}

/// The views of a sequence of plans.
pub open spec fn models(ps: Seq<Plan>) -> Seq<PlanModel> {
    ps.map_values(|p: Plan| p@)
}

/// The target names of the plans.
pub open spec fn target_leaves(ps: Seq<PlanModel>) -> Seq<Seq<char>> {
    ps.map_values(|p: PlanModel| p.target.leaf)
}

/// The source names of one plan.
pub open spec fn source_leaves(p: PlanModel) -> Seq<Seq<char>> {
    p.sources.map_values(|s: crate::plan::PathModel| s.leaf)
}

/// The errors for the first `j` sources of `p`, given how the check of each
/// source's path came out.
pub open spec fn source_errors(p: PlanModel, checks: Seq<Result<(), String>>, j: nat) -> Seq<ValidationErrorView>
    decreases j,
{
    if j == 0 {
        seq![]
    } else {
        let k = (j - 1) as nat;
        let dup = if repeats_earlier(source_leaves(p), k as int) {
            seq![ValidationErrorView::DuplicateSource { source_name: p.sources[k as int].leaf, target_name: p.target.leaf }]
        } else {
            seq![]
        };
        let missing = match checks[k as int] {
            Err(msg) => seq![ValidationErrorView::MissingSource {
                source_name: p.sources[k as int].leaf,
                source_path: p.sources[k as int].path,
                target_name: p.target.leaf,
                inner_error: msg@,
            }],
            Ok(_) => seq![],
        };
        source_errors(p, checks, k) + dup + missing
    }
}

/// Every error of the first `n` plans, in file order: a repeated target name,
/// then for each source a repeated source name and a path that did not resolve.
pub open spec fn validation_errors(ps: Seq<PlanModel>, checks: Seq<Seq<Result<(), String>>>, n: nat) -> Seq<ValidationErrorView>
    decreases n,
{
    if n == 0 {
        seq![]
    } else {
        let i = (n - 1) as nat;
        let dup = if repeats_earlier(target_leaves(ps), i as int) {
            seq![ValidationErrorView::DuplicateTarget { target_name: ps[i as int].target.leaf }]
        } else {
            seq![]
        };
        validation_errors(ps, checks, i) + dup + source_errors(ps[i as int], checks[i as int], ps[i as int].sources.len())
    }
}

/// The outcome of each source check, plan by plan.
pub open spec fn check_views(checks: Seq<Vec<Result<(), String>>>) -> Seq<Seq<Result<(), String>>> {
    checks.map_values(|c: Vec<Result<(), String>>| c@)
}

/// `checks` holds one outcome per source of each plan.
pub open spec fn checks_fit(ps: Seq<PlanModel>, checks: Seq<Seq<Result<(), String>>>) -> bool {
    &&& checks.len() == ps.len()
    &&& forall|i: int| 0 <= i < ps.len() ==> (#[trigger] checks[i]).len() == ps[i].sources.len()
}

fn target_seen(plans: &Vec<Plan>, i: usize) -> (r: bool)
    requires
        i < plans@.len(),
    ensures
        r == repeats_earlier(target_leaves(models(plans@)), i as int),
{
    let ghost xs = target_leaves(models(plans@));
    let mut k: usize = 0;
    while k < i
        invariant
            i < plans@.len(),
            k <= i,
            xs == target_leaves(models(plans@)),
            forall|m: int| 0 <= m < k ==> xs[m] != xs[i as int],
        decreases i - k,
    {
        if plans[k].target_path.leaf == plans[i].target_path.leaf {
            assert(xs[k as int] == xs[i as int]);
            return true;
        }
        k = k + 1;
    }
    false
}

fn source_seen(plan: &Plan, j: usize) -> (r: bool)
    requires
        j < plan.sources@.len(),
    ensures
        r == repeats_earlier(source_leaves(plan@), j as int),
{
    let ghost xs = source_leaves(plan@);
    let mut k: usize = 0;
    while k < j
        invariant
            j < plan.sources@.len(),
            k <= j,
            xs == source_leaves(plan@),
            forall|m: int| 0 <= m < k ==> xs[m] != xs[j as int],
        decreases j - k,
    {
        if plan.sources[k].leaf == plan.sources[j].leaf {
            assert(xs[k as int] == xs[j as int]);
            return true;
        }
        k = k + 1;
    }
    false
}

/// Collects every validation error of `plans`, given for each source whether
/// its path resolved (`Ok`) or why not (`Err`).
pub fn validate_plans(plans: &Vec<Plan>, checks: &Vec<Vec<Result<(), String>>>) -> (r: Vec<ValidationError>)
    requires
        checks_fit(models(plans@), check_views(checks@)),
    ensures
        error_views(r@) == validation_errors(models(plans@), check_views(checks@), plans@.len()),
{
    let ghost ps = models(plans@);
    let ghost cs = check_views(checks@);
    let mut out: Vec<ValidationError> = Vec::new();
    let mut i: usize = 0;
    while i < plans.len()
        invariant
            i <= plans@.len(),
            ps == models(plans@),
            cs == check_views(checks@),
            checks_fit(ps, cs),
            error_views(out@) == validation_errors(ps, cs, i as nat),
        decreases plans.len() - i,
    {
        let plan = &plans[i];
        assert(ps[i as int] == plan@);
        if target_seen(plans, i) {
            let ghost before = out@;
            out.push(ValidationError::DuplicateTarget { target_name: plan.target_path.leaf.clone() });
            assert(error_views(out@) =~= error_views(before).push(out@.last()@));
        }
        let ghost after_target = error_views(out@);
        assert(after_target == validation_errors(ps, cs, i as nat) + (if repeats_earlier(target_leaves(ps), i as int) {
            seq![ValidationErrorView::DuplicateTarget { target_name: ps[i as int].target.leaf }]
        } else {
            seq![]
        }));
        let row = &checks[i];
        assert(cs[i as int] == row@);
        let mut j: usize = 0;
        while j < plan.sources.len()
            invariant
                i < plans@.len(),
                ps == models(plans@),
                cs == check_views(checks@),
                plan == &plans@[i as int],
                row == &checks@[i as int],
                ps[i as int] == plan@,
                cs[i as int] == row@,
                checks_fit(ps, cs),
                j <= plan.sources@.len(),
                error_views(out@) == after_target + source_errors(plan@, row@, j as nat),
            decreases plan.sources.len() - j,
        {
            assert(row@.len() == plan.sources@.len()) by {
                assert(cs[i as int].len() == ps[i as int].sources.len());
            }
            let src = &plan.sources[j];
            assert(plan@.sources[j as int] == src@);
            let ghost before = out@;
            if source_seen(plan, j) {
                out.push(ValidationError::DuplicateSource {
                    source_name: src.leaf.clone(),
                    target_name: plan.target_path.leaf.clone(),
                });
            }
            let ghost mid = out@;
            match &row[j] {
                Err(msg) => {
                    out.push(ValidationError::MissingSource {
                        source_name: src.leaf.clone(),
                        source_path: src.path.clone(),
                        target_name: plan.target_path.leaf.clone(),
                        inner_error: msg.clone(),
                    });
                },
                Ok(_) => {},
            }
            proof {
                let dup = if repeats_earlier(source_leaves(plan@), j as int) {
                    seq![ValidationErrorView::DuplicateSource { source_name: src@.leaf, target_name: plan@.target.leaf }]
                } else {
                    seq![]
                };
                let missing = match row@[j as int] {
                    Err(msg) => seq![ValidationErrorView::MissingSource {
                        source_name: src@.leaf,
                        source_path: src@.path,
                        target_name: plan@.target.leaf,
                        inner_error: msg@,
                    }],
                    Ok(_) => seq![],
                };
                assert(error_views(mid) =~= error_views(before) + dup);
                assert(error_views(out@) =~= error_views(mid) + missing);
                assert(source_errors(plan@, row@, (j + 1) as nat) == source_errors(plan@, row@, j as nat) + dup + missing);
                assert(error_views(out@) =~= after_target + source_errors(plan@, row@, (j + 1) as nat));
            }
            j = j + 1;
        }
        i = i + 1;
    }
    out
}

/// The sources of `ps` were each checked with `resolve`, and `checks` holds
/// what each check returned.
pub open spec fn checked_with<F: Fn(&String) -> Result<(), String>>(resolve: F, ps: Seq<Plan>, checks: Seq<Seq<Result<(), String>>>) -> bool {
    &&& checks_fit(models(ps), checks)
    &&& forall|i: int, j: int| 0 <= i < ps.len() && 0 <= j < ps[i].sources@.len()
        ==> resolve.ensures((&ps[i].sources@[j].path,), #[trigger] checks[i][j])
}

/// What compiling ends in once the grammar produced `ps` and the checks
/// came out as `checks`.
pub open spec fn outcome(r: Result<Vec<Plan>, ParseError>, ps: Seq<Plan>, checks: Seq<Seq<Result<(), String>>>) -> bool {
    let errors = validation_errors(models(ps), checks, ps.len());
    if errors.len() == 0 {
        r is Ok && r->Ok_0@ == ps
    } else {
        r is Err && r->Err_0@ == ParseErrorView::Validation { errors }
    }
}

/// Compiles spec text into plans, resolving target names against
/// `target_dir` and source names against `sources_dir`. `resolve` checks that
/// a source path names an existing file. A grammar error ends the parse at
/// once; otherwise every validation error is collected, and the plans are
/// returned only when there is none.
pub fn parse_spec<F: Fn(&String) -> Result<(), String>>(spec: &str, target_dir: &str, sources_dir: &str, resolve: F) -> (r: Result<Vec<Plan>, ParseError>)
    requires
        forall|p: &String| resolve.requires((p,)),
    ensures
        match parse_lines(spec_lines(spec@)) {
            Err(e) => r is Err && r->Err_0@ == e,
            Ok(ds) => exists|ps: Seq<Plan>, checks: Seq<Seq<Result<(), String>>>| {
                &&& compiled_from(ps, ds, target_dir@, sources_dir@)
                &&& checked_with(resolve, ps, checks)
                &&& outcome(r, ps, checks)
            },
        },
{
    let v = chars_of(spec);
    let ranges = split_lines(&v);
    let plans = match compile_lines(&v, &ranges, target_dir, sources_dir) {
        Ok(plans) => plans,
        Err(e) => {
            return Err(e);
        },
    };
    let mut checks: Vec<Vec<Result<(), String>>> = Vec::new();
    let mut i: usize = 0;
    while i < plans.len()
        invariant
            i <= plans@.len(),
            checks@.len() == i,
            forall|a: int| 0 <= a < i ==> (#[trigger] checks@[a])@.len() == plans@[a].sources@.len(),
            forall|p: &String| resolve.requires((p,)),
            forall|a: int, b: int| 0 <= a < i && 0 <= b < plans@[a].sources@.len()
                ==> resolve.ensures((&plans@[a].sources@[b].path,), #[trigger] checks@[a]@[b]),
        decreases plans.len() - i,
    {
        let plan = &plans[i];
        let mut row: Vec<Result<(), String>> = Vec::new();
        let mut j: usize = 0;
        while j < plan.sources.len()
            invariant
                plan == &plans@[i as int],
                j <= plan.sources@.len(),
                row@.len() == j,
                forall|p: &String| resolve.requires((p,)),
                forall|b: int| 0 <= b < j ==> resolve.ensures((&plan.sources@[b].path,), #[trigger] row@[b]),
            decreases plan.sources.len() - j,
        {
            let res = resolve(&plan.sources[j].path);
            row.push(res);
            j = j + 1;
        }
        checks.push(row);
        i = i + 1;
    }
    let ghost ps = plans@;
    let ghost cs = check_views(checks@);
    assert(checks_fit(models(ps), cs)) by {
        assert forall|a: int| 0 <= a < ps.len() implies (#[trigger] cs[a]).len() == models(ps)[a].sources.len() by {
            assert(cs[a] == checks@[a]@);
        }
    }
    assert(checked_with(resolve, ps, cs)) by {
        assert forall|a: int, b: int| 0 <= a < ps.len() && 0 <= b < ps[a].sources@.len()
            implies resolve.ensures((&ps[a].sources@[b].path,), #[trigger] cs[a][b]) by {
            assert(cs[a] == checks@[a]@);
        }
    }
    let errors = validate_plans(&plans, &checks);
    if errors.len() == 0 {
        assert(outcome(Ok(plans), ps, cs));
        Ok(plans)
    } else {
        assert(outcome(Err(ParseError::Validation { errors }), ps, cs));
        Err(ParseError::Validation { errors })
    }
}

// ---------------------------------------------------------------------------
// Laws

/// The errors of the first `n` plans open the errors of the first `m`.
proof fn lemma_errors_prefix(ps: Seq<PlanModel>, checks: Seq<Seq<Result<(), String>>>, n: nat, m: nat)
    requires
        n <= m <= ps.len(),
        checks_fit(ps, checks),
    ensures
        validation_errors(ps, checks, n).len() <= validation_errors(ps, checks, m).len(),
        validation_errors(ps, checks, m).subrange(0, validation_errors(ps, checks, n).len() as int)
            == validation_errors(ps, checks, n),
    decreases m - n,
{
    if n < m {
        lemma_errors_prefix(ps, checks, n, (m - 1) as nat);
        let a = validation_errors(ps, checks, n);
        let b = validation_errors(ps, checks, (m - 1) as nat);
        let c = validation_errors(ps, checks, m);
        assert(c.subrange(0, b.len() as int) =~= b);
        assert(c.subrange(0, a.len() as int) =~= b.subrange(0, a.len() as int));
    } else {
        assert(validation_errors(ps, checks, m).subrange(0, validation_errors(ps, checks, n).len() as int)
            =~= validation_errors(ps, checks, n));
    }
}

/// The errors of the first `j` sources open the errors of the first `l`.
proof fn lemma_source_errors_prefix(p: PlanModel, checks: Seq<Result<(), String>>, j: nat, l: nat)
    requires
        j <= l <= p.sources.len(),
        checks.len() == p.sources.len(),
    ensures
        source_errors(p, checks, j).len() <= source_errors(p, checks, l).len(),
        source_errors(p, checks, l).subrange(0, source_errors(p, checks, j).len() as int)
            == source_errors(p, checks, j),
    decreases l - j,
{
    if j < l {
        lemma_source_errors_prefix(p, checks, j, (l - 1) as nat);
        let a = source_errors(p, checks, j);
        let b = source_errors(p, checks, (l - 1) as nat);
        let c = source_errors(p, checks, l);
        assert(c.subrange(0, b.len() as int) =~= b);
        assert(c.subrange(0, a.len() as int) =~= b.subrange(0, a.len() as int));
    } else {
        assert(source_errors(p, checks, l).subrange(0, source_errors(p, checks, j).len() as int)
            =~= source_errors(p, checks, j));
    }
}

/// An error of plan `i` is among the errors of all plans.
proof fn lemma_plan_error_reported(ps: Seq<PlanModel>, checks: Seq<Seq<Result<(), String>>>, i: int, e: ValidationErrorView)
    requires
        checks_fit(ps, checks),
        0 <= i < ps.len(),
        source_errors(ps[i], checks[i], ps[i].sources.len()).contains(e),
    ensures
        validation_errors(ps, checks, ps.len()).contains(e),
{
    let here = validation_errors(ps, checks, (i + 1) as nat);
    let before = validation_errors(ps, checks, i as nat);
    let dup = if repeats_earlier(target_leaves(ps), i) {
        seq![ValidationErrorView::DuplicateTarget { target_name: ps[i].target.leaf }]
    } else {
        seq![]
    };
    let srcs = source_errors(ps[i], checks[i], ps[i].sources.len());
    assert(here == before + dup + srcs);
    let k = choose|k: int| 0 <= k < srcs.len() && srcs[k] == e;
    assert(here[before.len() + dup.len() + k] == e);
    lemma_errors_prefix(ps, checks, (i + 1) as nat, ps.len());
    let all = validation_errors(ps, checks, ps.len());
    assert(all.subrange(0, here.len() as int)[before.len() + dup.len() + k] == e);
}

/// An error of source `j` of a plan is among the errors of all its sources.
proof fn lemma_source_error_reported(p: PlanModel, checks: Seq<Result<(), String>>, j: int, e: ValidationErrorView)
    requires
        checks.len() == p.sources.len(),
        0 <= j < p.sources.len(),
        source_errors(p, checks, (j + 1) as nat).contains(e),
    ensures
        source_errors(p, checks, p.sources.len()).contains(e),
{
    let here = source_errors(p, checks, (j + 1) as nat);
    let k = choose|k: int| 0 <= k < here.len() && here[k] == e;
    lemma_source_errors_prefix(p, checks, (j + 1) as nat, p.sources.len());
    let all = source_errors(p, checks, p.sources.len());
    assert(all.subrange(0, here.len() as int)[k] == e);
}

/// Two plans with the same target name: the validation errors name it as
/// a duplicate target.
pub proof fn lemma_duplicate_target_reported(ps: Seq<PlanModel>, checks: Seq<Seq<Result<(), String>>>, k: int, i: int)
    requires
        checks_fit(ps, checks),
        0 <= k < i < ps.len(),
        ps[k].target.leaf == ps[i].target.leaf,
    ensures
        validation_errors(ps, checks, ps.len()).contains(
            ValidationErrorView::DuplicateTarget { target_name: ps[i].target.leaf },
        ),
{
    let e = ValidationErrorView::DuplicateTarget { target_name: ps[i].target.leaf };
    assert(target_leaves(ps)[k] == target_leaves(ps)[i]);
    assert(repeats_earlier(target_leaves(ps), i));
    let here = validation_errors(ps, checks, (i + 1) as nat);
    let before = validation_errors(ps, checks, i as nat);
    assert(here[before.len() as int] == e);
    lemma_errors_prefix(ps, checks, (i + 1) as nat, ps.len());
    let all = validation_errors(ps, checks, ps.len());
    assert(all.subrange(0, here.len() as int)[before.len() as int] == e);
}

/// Two sources with the same name in one plan: the validation errors name
/// it as a duplicate source of that plan's target.
pub proof fn lemma_duplicate_source_reported(ps: Seq<PlanModel>, checks: Seq<Seq<Result<(), String>>>, i: int, k: int, j: int)
    requires
        checks_fit(ps, checks),
        0 <= i < ps.len(),
        0 <= k < j < ps[i].sources.len(),
        ps[i].sources[k].leaf == ps[i].sources[j].leaf,
    ensures
        validation_errors(ps, checks, ps.len()).contains(
            ValidationErrorView::DuplicateSource { source_name: ps[i].sources[j].leaf, target_name: ps[i].target.leaf },
        ),
{
    let p = ps[i];
    let e = ValidationErrorView::DuplicateSource { source_name: p.sources[j].leaf, target_name: p.target.leaf };
    assert(source_leaves(p)[k] == source_leaves(p)[j]);
    assert(repeats_earlier(source_leaves(p), j));
    let before = source_errors(p, checks[i], j as nat);
    let here = source_errors(p, checks[i], (j + 1) as nat);
    assert(here[before.len() as int] == e);
    lemma_source_error_reported(p, checks[i], j, e);
    lemma_plan_error_reported(ps, checks, i, e);
}

/// A source whose path did not resolve: the validation errors name it as
/// missing, with the reason given. The other errors stay as they are: every
/// error that the lemmas above find is in the same sequence.
pub proof fn lemma_missing_source_reported(ps: Seq<PlanModel>, checks: Seq<Seq<Result<(), String>>>, i: int, j: int, msg: String)
    requires
        checks_fit(ps, checks),
        0 <= i < ps.len(),
        0 <= j < ps[i].sources.len(),
        checks[i][j] == Err::<(), String>(msg),
    ensures
        validation_errors(ps, checks, ps.len()).contains(
            ValidationErrorView::MissingSource {
                source_name: ps[i].sources[j].leaf,
                source_path: ps[i].sources[j].path,
                target_name: ps[i].target.leaf,
                inner_error: msg@,
            },
        ),
{
    let p = ps[i];
    let e = ValidationErrorView::MissingSource {
        source_name: p.sources[j].leaf,
        source_path: p.sources[j].path,
        target_name: p.target.leaf,
        inner_error: msg@,
    };
    let here = source_errors(p, checks[i], (j + 1) as nat);
    assert(here[here.len() - 1] == e);
    lemma_source_error_reported(p, checks[i], j, e);
    lemma_plan_error_reported(ps, checks, i, e);
}

/// A source line before any target line, with only blank lines above it:
/// parsing stops there with `MissingTarget` for that source, whatever follows.
pub proof fn lemma_source_before_target(lines: Seq<Seq<char>>, j: int)
    requires
        0 <= j < lines.len(),
        forall|m: int| 0 <= m < j ==> classify(#[trigger] lines[m]) == LineKind::Blank,
        classify(lines[j]) is Source,
    ensures
        parse_lines(lines) == Err::<Seq<Draft>, ParseErrorView>(
            ParseErrorView::MissingTarget { source_name: classify(lines[j])->Source_0 },
        ),
{
    lemma_blank_prefix(lines, j);
    assert(lines.take(j + 1).drop_last() =~= lines.take(j));
    assert(lines.take(j + 1).last() == lines[j]);
    lemma_error_persists(lines, j + 1);
}

/// Blank lines alone leave the parse where it began.
proof fn lemma_blank_prefix(lines: Seq<Seq<char>>, j: int)
    requires
        0 <= j <= lines.len(),
        forall|m: int| 0 <= m < j ==> classify(#[trigger] lines[m]) == LineKind::Blank,
    ensures
        run(lines.take(j)) == Ok::<(Seq<Draft>, Option<Draft>), ParseErrorView>((seq![], None)),
    decreases j,
{
    if j > 0 {
        lemma_blank_prefix(lines, j - 1);
        assert(lines.take(j).drop_last() =~= lines.take(j - 1));
        assert(lines.take(j).last() == lines[j - 1]);
        assert(classify(lines[j - 1]) == LineKind::Blank);
    } else {
        assert(lines.take(0) =~= Seq::<Seq<char>>::empty());
    }
}

/// A name that reads back as written: not empty, on one line, no white
/// space at either end.
pub open spec fn clean_name(n: Seq<char>) -> bool {
    &&& n.len() > 0
    &&& trim(n) == n
    &&& !n.contains('\n')
}

/// A draft that a spec can state: clean names and at least one source.
pub open spec fn well_formed_draft(d: Draft) -> bool {
    &&& clean_name(d.target)
    &&& d.sources.len() > 0
    &&& forall|j: int| 0 <= j < d.sources.len() ==> clean_name(#[trigger] d.sources[j])
}

/// The target line `<name>:`.
pub open spec fn target_line(n: Seq<char>) -> Seq<char> {
    n.push(':')
}

/// The source line: a tab, then the name.
pub open spec fn source_line(n: Seq<char>) -> Seq<char> {
    seq!['\t'] + n
}

/// The lines of one block: its target line, a line per source, a blank line.
pub open spec fn block_lines(d: Draft) -> Seq<Seq<char>> {
    seq![target_line(d.target)] + d.sources.map_values(|s: Seq<char>| source_line(s)) + seq![seq![]]
}

/// The lines of a spec made of `blocks`, one after the other.
pub open spec fn spec_of(blocks: Seq<Draft>) -> Seq<Seq<char>>
    decreases blocks.len(),
{
    if blocks.len() == 0 {
        seq![]
    } else {
        spec_of(blocks.drop_last()) + block_lines(blocks.last())
    }
}

proof fn lemma_trim_start_len(s: Seq<char>)
    ensures
        trim_start(s).len() <= s.len(),
        s.len() > 0 && is_white_space(s[0]) ==> trim_start(s).len() < s.len(),
    decreases s.len(),
{
    if s.len() > 0 && is_white_space(s[0]) {
        lemma_trim_start_len(s.drop_first());
    }
}

proof fn lemma_trim_end_len(s: Seq<char>)
    ensures
        trim_end(s).len() <= s.len(),
        s.len() > 0 && is_white_space(s.last()) ==> trim_end(s).len() < s.len(),
    decreases s.len(),
{
    if s.len() > 0 && is_white_space(s.last()) {
        lemma_trim_end_len(s.drop_last());
    }
}

/// A clean name neither starts nor ends with white space.
proof fn lemma_clean_ends(n: Seq<char>)
    requires
        clean_name(n),
    ensures
        !is_white_space(n[0]),
        !is_white_space(n.last()),
        trim_start(n) == n,
        trim_end(n) == n,
{
    lemma_trim_start_len(n);
    lemma_trim_end_len(trim_start(n));
    if is_white_space(n[0]) {
        assert(trim(n).len() < n.len());
    }
    assert(trim_start(n) == n);
    lemma_trim_end_len(n);
}

proof fn lemma_classify_target(n: Seq<char>)
    requires
        clean_name(n),
    ensures
        classify(target_line(n)) == LineKind::Target(n),
{
    let l = target_line(n);
    lemma_clean_ends(n);
    assert(l[0] == n[0]);
    assert(trim_start(l) == l);
    assert(!is_white_space(l.last()));
    assert(trim_end(l) == l);
    assert(l.drop_last() =~= n);
}

proof fn lemma_classify_source(n: Seq<char>)
    requires
        clean_name(n),
    ensures
        classify(source_line(n)) == LineKind::Source(n),
{
    let l = source_line(n);
    lemma_clean_ends(n);
    assert(is_white_space('\t'));
    assert(l.drop_first() =~= n);
    assert(trim_start(l) == trim_start(n));
    assert(trim(l) == n);
}

/// Reading the first `k` source lines of a block after its target line.
proof fn lemma_block_sources(head: Seq<Seq<char>>, done: Seq<Draft>, b: Draft, k: int)
    requires
        0 <= k <= b.sources.len(),
        well_formed_draft(b),
        run(head) == Ok::<(Seq<Draft>, Option<Draft>), ParseErrorView>((done, Some(Draft { target: b.target, sources: seq![] }))),
    ensures
        run(head + b.sources.map_values(|s: Seq<char>| source_line(s)).take(k))
            == Ok::<(Seq<Draft>, Option<Draft>), ParseErrorView>((done, Some(Draft { target: b.target, sources: b.sources.take(k) }))),
    decreases k,
{
    let srcs = b.sources.map_values(|s: Seq<char>| source_line(s));
    if k == 0 {
        assert(head + srcs.take(0) =~= head);
        assert(b.sources.take(0) =~= Seq::<Seq<char>>::empty());
    } else {
        lemma_block_sources(head, done, b, k - 1);
        let next = head + srcs.take(k);
        assert(next.drop_last() =~= head + srcs.take(k - 1));
        assert(next.last() == source_line(b.sources[k - 1]));
        lemma_classify_source(b.sources[k - 1]);
        assert(b.sources.take(k) =~= b.sources.take(k - 1).push(b.sources[k - 1]));
    }
}

/// Reading one well-formed block after a closed state appends its draft.
proof fn lemma_block(prefix: Seq<Seq<char>>, done: Seq<Draft>, b: Draft)
    requires
        run(prefix) == Ok::<(Seq<Draft>, Option<Draft>), ParseErrorView>((done, None)),
        well_formed_draft(b),
    ensures
        run(prefix + block_lines(b)) == Ok::<(Seq<Draft>, Option<Draft>), ParseErrorView>((done.push(b), None)),
{
    let srcs = b.sources.map_values(|s: Seq<char>| source_line(s));
    let head = prefix.push(target_line(b.target));
    lemma_classify_target(b.target);
    assert(head.drop_last() =~= prefix);
    assert(run(head) == Ok::<(Seq<Draft>, Option<Draft>), ParseErrorView>((done, Some(Draft { target: b.target, sources: seq![] }))));
    assert(head + srcs.take(0) =~= head);
    assert(b.sources.take(0) =~= Seq::<Seq<char>>::empty());
    lemma_block_sources(head, done, b, srcs.len() as int);
    assert(srcs.take(srcs.len() as int) =~= srcs);
    assert(b.sources.take(b.sources.len() as int) =~= b.sources);
    let all = prefix + block_lines(b);
    assert(all =~= (head + srcs).push(seq![]));
    assert(all.drop_last() =~= head + srcs);
    assert(trim(Seq::<char>::empty()).len() == 0);
    assert(classify(Seq::<char>::empty()) == LineKind::Blank);
}

/// A spec made of well-formed blocks, each ended by a blank line, compiles
/// to exactly those blocks, in file order, with the names as written.
pub proof fn lemma_well_formed_spec(blocks: Seq<Draft>)
    requires
        forall|i: int| 0 <= i < blocks.len() ==> well_formed_draft(#[trigger] blocks[i]),
    ensures
        parse_lines(spec_of(blocks)) == Ok::<Seq<Draft>, ParseErrorView>(blocks),
    decreases blocks.len(),
{
    lemma_spec_run(blocks);
}

proof fn lemma_spec_run(blocks: Seq<Draft>)
    requires
        forall|i: int| 0 <= i < blocks.len() ==> well_formed_draft(#[trigger] blocks[i]),
    ensures
        run(spec_of(blocks)) == Ok::<(Seq<Draft>, Option<Draft>), ParseErrorView>((blocks, None)),
    decreases blocks.len(),
{
    if blocks.len() > 0 {
        let rest = blocks.drop_last();
        assert forall|i: int| 0 <= i < rest.len() implies well_formed_draft(#[trigger] rest[i]) by {
            assert(rest[i] == blocks[i]);
        }
        lemma_spec_run(rest);
        assert(well_formed_draft(blocks[blocks.len() - 1]));
        lemma_block(spec_of(rest), rest, blocks.last());
        assert(rest.push(blocks.last()) =~= blocks);
    } else {
        assert(blocks =~= Seq::<Draft>::empty());
    }
}

/// The text of `ls`, each line followed by a newline.
pub open spec fn text_of(ls: Seq<Seq<char>>) -> Seq<char>
    decreases ls.len(),
{
    if ls.len() == 0 {
        seq![]
    } else {
        (text_of(ls.drop_last()) + ls.last()).push('\n')
    }
}

/// A line that `text_of` and `spec_lines` carry through unchanged.
pub open spec fn plain_line(l: Seq<char>) -> bool {
    &&& !l.contains('\n')
    &&& strip_cr(l) == l
}

/// Reading a line without a newline extends the line in progress.
proof fn lemma_scan_within_line(t: Seq<char>, l: Seq<char>)
    requires
        !l.contains('\n'),
    ensures
        scan_lines(t + l) == (scan_lines(t).0, scan_lines(t).1 + l),
    decreases l.len(),
{
    if l.len() == 0 {
        assert(t + l =~= t);
        assert(scan_lines(t).1 + l =~= scan_lines(t).1);
    } else {
        let m = l.drop_last();
        assert(!m.contains('\n')) by {
            if m.contains('\n') {
                let k = choose|k: int| 0 <= k < m.len() && m[k] == '\n';
                assert(l[k] == '\n');
            }
        }
        lemma_scan_within_line(t, m);
        assert((t + l).drop_last() =~= t + m);
        assert((t + l).last() == l.last());
        assert(l.last() != '\n') by {
            assert(l[l.len() - 1] == l.last());
        }
        assert(scan_lines(t).1 + m + seq![l.last()] =~= scan_lines(t).1 + l);
    }
}

/// Lines joined by newlines split back into the same lines.
pub proof fn lemma_lines_of_text(ls: Seq<Seq<char>>)
    requires
        forall|i: int| 0 <= i < ls.len() ==> plain_line(#[trigger] ls[i]),
    ensures
        scan_lines(text_of(ls)) == (ls, Seq::<char>::empty()),
        spec_lines(text_of(ls)) == ls,
    decreases ls.len(),
{
    if ls.len() > 0 {
        let rest = ls.drop_last();
        assert forall|i: int| 0 <= i < rest.len() implies plain_line(#[trigger] rest[i]) by {
            assert(rest[i] == ls[i]);
        }
        lemma_lines_of_text(rest);
        let l = ls.last();
        assert(plain_line(ls[ls.len() - 1]));
        lemma_scan_within_line(text_of(rest), l);
        let t = text_of(ls);
        assert(t.drop_last() =~= text_of(rest) + l);
        assert(Seq::<char>::empty() + l =~= l);
        assert(rest.push(l) =~= ls);
    }
}

/// The lines of well-formed blocks are all plain.
proof fn lemma_spec_lines_plain(blocks: Seq<Draft>)
    requires
        forall|i: int| 0 <= i < blocks.len() ==> well_formed_draft(#[trigger] blocks[i]),
    ensures
        forall|i: int| 0 <= i < spec_of(blocks).len() ==> plain_line(#[trigger] spec_of(blocks)[i]),
    decreases blocks.len(),
{
    if blocks.len() > 0 {
        let rest = blocks.drop_last();
        assert forall|i: int| 0 <= i < rest.len() implies well_formed_draft(#[trigger] rest[i]) by {
            assert(rest[i] == blocks[i]);
        }
        lemma_spec_lines_plain(rest);
        let b = blocks.last();
        assert(well_formed_draft(blocks[blocks.len() - 1]));
        let bl = block_lines(b);
        assert forall|i: int| 0 <= i < bl.len() implies plain_line(#[trigger] bl[i]) by {
            if i == 0 {
                lemma_clean_ends(b.target);
                let l = target_line(b.target);
                assert(!l.contains('\n')) by {
                    if l.contains('\n') {
                        let k = choose|k: int| 0 <= k < l.len() && l[k] == '\n';
                        assert(b.target[k] == '\n');
                    }
                }
            } else if i < bl.len() - 1 {
                let n = b.sources[i - 1];
                assert(clean_name(n));
                lemma_clean_ends(n);
                let l = source_line(n);
                assert(bl[i] == l);
                assert(l.last() == n.last());
                assert(is_white_space('\r'));
                assert(!l.contains('\n')) by {
                    if l.contains('\n') {
                        let k = choose|k: int| 0 <= k < l.len() && l[k] == '\n';
                        assert(n[k - 1] == '\n');
                    }
                }
            } else {
                assert(bl[i] == Seq::<char>::empty());
            }
        }
        let all = spec_of(blocks);
        assert(all == spec_of(rest) + bl);
        assert forall|i: int| 0 <= i < all.len() implies plain_line(#[trigger] all[i]) by {
            if i < spec_of(rest).len() {
                assert(all[i] == spec_of(rest)[i]);
            } else {
                assert(all[i] == bl[i - spec_of(rest).len()]);
            }
        }
    }
}

/// The text of a spec made of well-formed blocks compiles to exactly those
/// blocks, in file order, with every name as written.
pub proof fn lemma_well_formed_text(blocks: Seq<Draft>)
    requires
        forall|i: int| 0 <= i < blocks.len() ==> well_formed_draft(#[trigger] blocks[i]),
    ensures
        parse_lines(spec_lines(text_of(spec_of(blocks)))) == Ok::<Seq<Draft>, ParseErrorView>(blocks),
{
    lemma_spec_lines_plain(blocks);
    lemma_lines_of_text(spec_of(blocks));
    lemma_well_formed_spec(blocks);
}

/// No two entries of `xs` are equal.
pub open spec fn all_distinct(xs: Seq<Seq<char>>) -> bool {
    forall|k: int, j: int| 0 <= k < j < xs.len() ==> xs[k] != xs[j]
}

proof fn lemma_no_source_errors(p: PlanModel, checks: Seq<Result<(), String>>, j: nat)
    requires
        j <= p.sources.len(),
        checks.len() == p.sources.len(),
        all_distinct(source_leaves(p)),
        forall|m: int| 0 <= m < checks.len() ==> (#[trigger] checks[m]) is Ok,
    ensures
        source_errors(p, checks, j).len() == 0,
    decreases j,
{
    if j > 0 {
        lemma_no_source_errors(p, checks, (j - 1) as nat);
        let k = j - 1;
        assert(!repeats_earlier(source_leaves(p), k)) by {
            if repeats_earlier(source_leaves(p), k) {
                let m = choose|m: int| 0 <= m < k && source_leaves(p)[m] == source_leaves(p)[k];
                assert(source_leaves(p)[m] != source_leaves(p)[k]);
            }
        }
        assert(checks[k] is Ok);
    }
}

/// Without repeated names or failed checks, the first `n` plans have no error.
proof fn lemma_no_errors(ps: Seq<PlanModel>, checks: Seq<Seq<Result<(), String>>>, n: nat)
    requires
        n <= ps.len(),
        checks_fit(ps, checks),
        all_distinct(target_leaves(ps)),
        forall|i: int| 0 <= i < ps.len() ==> all_distinct(source_leaves(#[trigger] ps[i])),
        forall|i: int, j: int| 0 <= i < ps.len() && 0 <= j < checks[i].len() ==> (#[trigger] checks[i][j]) is Ok,
    ensures
        validation_errors(ps, checks, n).len() == 0,
    decreases n,
{
    if n > 0 {
        let i = n - 1;
        lemma_no_errors(ps, checks, (n - 1) as nat);
        assert(!repeats_earlier(target_leaves(ps), i)) by {
            if repeats_earlier(target_leaves(ps), i) {
                let m = choose|m: int| 0 <= m < i && target_leaves(ps)[m] == target_leaves(ps)[i];
                assert(target_leaves(ps)[m] != target_leaves(ps)[i]);
            }
        }
        assert(all_distinct(source_leaves(ps[i])));
        assert(checks[i].len() == ps[i].sources.len());
        assert forall|m: int| 0 <= m < checks[i].len() implies (#[trigger] checks[i][m]) is Ok by {}
        lemma_no_source_errors(ps[i], checks[i], ps[i].sources.len());
    }
}

/// Plans whose target names are distinct, whose source names are distinct
/// within each plan, and whose sources all resolved pass validation: the
/// compiled result is `Ok` with exactly those plans.
pub proof fn lemma_valid_plans_pass(ps: Seq<Plan>, checks: Seq<Seq<Result<(), String>>>, r: Result<Vec<Plan>, ParseError>)
    requires
        checks_fit(models(ps), checks),
        all_distinct(target_leaves(models(ps))),
        forall|i: int| 0 <= i < ps.len() ==> all_distinct(source_leaves(#[trigger] models(ps)[i])),
        forall|i: int, j: int| 0 <= i < ps.len() && 0 <= j < checks[i].len() ==> (#[trigger] checks[i][j]) is Ok,
        outcome(r, ps, checks),
    ensures
        r is Ok,
        r->Ok_0@ == ps,
{
    lemma_no_errors(models(ps), checks, ps.len());
}

/// `e` names a real violation among the plans `ps` and the checks `checks`:
/// a target heading two plans, a name repeated within one plan's sources, or
/// a source whose check failed with that reason.
pub open spec fn justified(ps: Seq<PlanModel>, checks: Seq<Seq<Result<(), String>>>, e: ValidationErrorView) -> bool {
    match e {
        ValidationErrorView::DuplicateTarget { target_name } => exists|k: int, i: int|
            0 <= k < i < ps.len() && #[trigger] ps[k].target.leaf == target_name
                && #[trigger] ps[i].target.leaf == target_name,
        ValidationErrorView::DuplicateSource { source_name, target_name } => exists|i: int, k: int, j: int|
            0 <= i < ps.len() && 0 <= k < j < ps[i].sources.len()
                && #[trigger] ps[i].sources[k].leaf == source_name
                && #[trigger] ps[i].sources[j].leaf == source_name && ps[i].target.leaf == target_name,
        ValidationErrorView::MissingSource { source_name, source_path, target_name, inner_error } => exists|i: int, j: int|
            0 <= i < ps.len() && 0 <= j < ps[i].sources.len() && #[trigger] checks[i][j] is Err
                && checks[i][j]->Err_0@ == inner_error && ps[i].sources[j].leaf == source_name
                && ps[i].sources[j].path == source_path && ps[i].target.leaf == target_name,
    }
}

proof fn lemma_source_errors_justified(ps: Seq<PlanModel>, checks: Seq<Seq<Result<(), String>>>, i: int, j: nat)
    requires
        checks_fit(ps, checks),
        0 <= i < ps.len(),
        j <= ps[i].sources.len(),
    ensures
        forall|m: int| 0 <= m < source_errors(ps[i], checks[i], j).len()
            ==> justified(ps, checks, #[trigger] source_errors(ps[i], checks[i], j)[m]),
    decreases j,
{
    if j > 0 {
        let p = ps[i];
        let c = checks[i];
        let k = (j - 1) as int;
        lemma_source_errors_justified(ps, checks, i, (j - 1) as nat);
        let before = source_errors(p, c, (j - 1) as nat);
        let dup = if repeats_earlier(source_leaves(p), k) {
            seq![ValidationErrorView::DuplicateSource { source_name: p.sources[k].leaf, target_name: p.target.leaf }]
        } else {
            seq![]
        };
        let missing = match c[k] {
            Err(msg) => seq![ValidationErrorView::MissingSource {
                source_name: p.sources[k].leaf,
                source_path: p.sources[k].path,
                target_name: p.target.leaf,
                inner_error: msg@,
            }],
            Ok(_) => seq![],
        };
        let all = source_errors(p, c, j);
        assert(all == before + dup + missing);
        assert(checks[i].len() == ps[i].sources.len());
        assert forall|m: int| 0 <= m < all.len() implies justified(ps, checks, #[trigger] all[m]) by {
            if m < before.len() {
                assert(all[m] == before[m]);
            } else if m < before.len() + dup.len() {
                let w = choose|w: int| 0 <= w < k && source_leaves(p)[w] == source_leaves(p)[k];
                assert(ps[i].sources[w].leaf == p.sources[k].leaf);
                assert(all[m] == dup[0]);
            } else {
                assert(all[m] == missing[0]);
                assert(checks[i][k] is Err);
            }
        }
    }
}

/// Every validation error names a real violation: no entry is reported
/// that the plans and checks do not call for.
pub proof fn lemma_errors_justified(ps: Seq<PlanModel>, checks: Seq<Seq<Result<(), String>>>, n: nat)
    requires
        checks_fit(ps, checks),
        n <= ps.len(),
    ensures
        forall|m: int| 0 <= m < validation_errors(ps, checks, n).len()
            ==> justified(ps, checks, #[trigger] validation_errors(ps, checks, n)[m]),
    decreases n,
{
    if n > 0 {
        let i = (n - 1) as int;
        lemma_errors_justified(ps, checks, (n - 1) as nat);
        lemma_source_errors_justified(ps, checks, i, ps[i].sources.len());
        let before = validation_errors(ps, checks, (n - 1) as nat);
        let dup = if repeats_earlier(target_leaves(ps), i) {
            seq![ValidationErrorView::DuplicateTarget { target_name: ps[i].target.leaf }]
        } else {
            seq![]
        };
        let srcs = source_errors(ps[i], checks[i], ps[i].sources.len());
        let all = validation_errors(ps, checks, n);
        assert(all == before + dup + srcs);
        assert forall|m: int| 0 <= m < all.len() implies justified(ps, checks, #[trigger] all[m]) by {
            if m < before.len() {
                assert(all[m] == before[m]);
            } else if m < before.len() + dup.len() {
                let w = choose|w: int| 0 <= w < i && target_leaves(ps)[w] == target_leaves(ps)[i];
                assert(ps[w].target.leaf == ps[i].target.leaf);
                assert(all[m] == dup[0]);
            } else {
                assert(all[m] == srcs[m - before.len() - dup.len()]);
            }
        }
    }
}

} // verus!
