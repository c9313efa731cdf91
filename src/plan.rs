//! The work plans that a compiled spec yields.
use vstd::prelude::*;
use vstd::string::StringExecFns;

verus! {

/// What a path separator of this platform can be.
pub open spec fn is_main_separator(c: char) -> bool {
    c == '/' || c == '\\'
}

/// Relies on `std::path::MAIN_SEPARATOR`: `/` on Unix, `\` on Windows.
#[verifier::external_body]
pub(crate) fn main_separator() -> (c: char)
    ensures
        is_main_separator(c),
{
    std::path::MAIN_SEPARATOR
}

/// The mathematical content of a [`PlanPath`].
pub ghost struct PathModel {
    pub path: Seq<char>,
    pub leaf: Seq<char>,
}

/// `p` is `leaf` joined to `dir` with one platform separator between them.
pub open spec fn resolves_to(p: PathModel, dir: Seq<char>, leaf: Seq<char>) -> bool {
    &&& p.leaf == leaf
    &&& p.path.len() == dir.len() + 1 + leaf.len()
    &&& is_main_separator(p.path[dir.len() as int])
    &&& p.path == dir + seq![p.path[dir.len() as int]] + leaf
}

/// A name as written in the spec, with the path it resolves to.
#[derive(Debug, Clone)]
pub struct PlanPath {
    pub path: String,
    pub leaf: String,
}

impl View for PlanPath {
    type V = PathModel;

    open spec fn view(&self) -> PathModel {
        PathModel { path: self.path@, leaf: self.leaf@ }
    }
}

impl PlanPath {
    /// Resolves the name `from` against the directory `relative_to`.
    pub fn new_relative_to(from: &str, relative_to: &str) -> (r: PlanPath)
        ensures
            resolves_to(r@, relative_to@, from@),
    {
        let mut path = relative_to.to_owned();
        let sep = main_separator();
        crate::text::push_char(&mut path, sep);
        path.append(from);
        assert(path@ =~= relative_to@ + seq![sep] + from@);
        PlanPath { path, leaf: from.to_owned() }
    }
}

/// How the sources of a plan are joined.
#[derive(Debug, Clone, Copy, PartialEq, Eq, Structural)]
pub enum Flag {
    /// Re-encode through a generated filter graph instead of stream-copying.
    ConcatFilter,
}

/// The mathematical content of a [`Plan`].
pub ghost struct PlanModel {
    pub target: PathModel,
    pub sources: Seq<PathModel>,
    pub flags: Seq<Flag>,
}

/// One output target with its ordered input sources.
#[derive(Debug, Clone)]
pub struct Plan {
    pub target_path: PlanPath,
    pub sources: Vec<PlanPath>,
    pub flags: Vec<Flag>,
}

impl View for Plan {
    type V = PlanModel;

    open spec fn view(&self) -> PlanModel {
        PlanModel {
            target: self.target_path@,
            sources: self.sources@.map_values(|s: PlanPath| s@),
            flags: self.flags@,
        }
    }
}

impl Plan {
    /// Whether the sources are joined through a filter graph.
    pub fn uses_filter_graph(&self) -> (r: bool)
        ensures
            r == self.flags@.contains(Flag::ConcatFilter),
    {
        let mut i: usize = 0;
        while i < self.flags.len()
            invariant
                i <= self.flags.len(),
                forall|k: int| 0 <= k < i ==> self.flags@[k] != Flag::ConcatFilter,
            decreases self.flags.len() - i,
        {
            if self.flags[i] == Flag::ConcatFilter {
                return true;
            }
            i = i + 1;
        }
        false
    }
}

} // verus!
