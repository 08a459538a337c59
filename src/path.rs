use vstd::prelude::*;

verus! {

/// How a row of a trie walk relates the old and the new tree.
#[derive(Clone, Copy, Debug, PartialEq, Eq, Structural)]
pub enum PathType {
    /// The boundary between two updates.
    Start,
    /// Both paths still pass through this depth.
    Common,
    /// Only the old path reaches this depth.
    ExtensionOld,
    /// Only the new path reaches this depth.
    ExtensionNew,
}

/// Every path type, in declaration order.
pub open spec fn all_path_types() -> Seq<PathType> {
    seq![PathType::Start, PathType::Common, PathType::ExtensionOld, PathType::ExtensionNew]
}

/// The path types that may stand on the row just before a row of type
/// `sink`. Any row may end a walk, so anything may precede `Start`; a
/// `Common` row follows the start of a walk or another `Common` row; an
/// extension row follows the start, the common part, or the same extension.
pub open spec fn path_sources(sink: PathType) -> Seq<PathType> {
    match sink {
        PathType::Start => seq![PathType::Start, PathType::Common, PathType::ExtensionOld, PathType::ExtensionNew],
        PathType::Common => seq![PathType::Start, PathType::Common],
        PathType::ExtensionOld => seq![PathType::Start, PathType::Common, PathType::ExtensionOld],
        PathType::ExtensionNew => seq![PathType::Start, PathType::Common, PathType::ExtensionNew],
    }
}

/// Whether a row of type `cur` may follow a row of type `prev`.
pub open spec fn path_may_follow(prev: PathType, cur: PathType) -> bool {
    path_sources(cur).contains(prev)
}

impl PathType {
    /// Every path type, in declaration order.
    pub fn all() -> (r: Vec<PathType>)
        ensures
            r@ == all_path_types(),
    {
        let r = vec![PathType::Start, PathType::Common, PathType::ExtensionOld, PathType::ExtensionNew];
        assert(r@ =~= all_path_types());
        r
    }
}

/// The path types allowed before `sink`.
pub fn path_sources_of(sink: PathType) -> (r: Vec<PathType>)
    ensures
        r@ == path_sources(sink),
{
    let r = match sink {
        PathType::Start => vec![PathType::Start, PathType::Common, PathType::ExtensionOld, PathType::ExtensionNew],
        PathType::Common => vec![PathType::Start, PathType::Common],
        PathType::ExtensionOld => vec![PathType::Start, PathType::Common, PathType::ExtensionOld],
        PathType::ExtensionNew => vec![PathType::Start, PathType::Common, PathType::ExtensionNew],
    };
    assert(r@ =~= path_sources(sink));
    r
}

/// The backward transitions of the path state machine: each path type with
/// the types allowed on the row before it.
pub fn backward_transitions() -> (r: Vec<(PathType, Vec<PathType>)>)
    ensures
        r@.len() == all_path_types().len(),
        forall|i: int| 0 <= i < r@.len() ==> (#[trigger] r@[i]).0 == all_path_types()[i] && r@[i].1@ == path_sources(r@[i].0),
{
    let sinks = PathType::all();
    let mut r: Vec<(PathType, Vec<PathType>)> = Vec::new();
    let mut i: usize = 0;
    while i < sinks.len()
        invariant
            sinks@ == all_path_types(),
            0 <= i <= sinks@.len(),
            r@.len() == i,
            forall|j: int| 0 <= j < i ==> (#[trigger] r@[j]).0 == all_path_types()[j] && r@[j].1@ == path_sources(r@[j].0),
        decreases sinks@.len() - i,
    {
        let sink = sinks[i];
        r.push((sink, path_sources_of(sink)));
        i = i + 1;
    }
    r
}

/// Whether a row of type `cur` may follow a row of type `prev`.
pub fn path_transition_allowed(prev: PathType, cur: PathType) -> (r: bool)
    ensures
        r == path_may_follow(prev, cur),
{
    let sources = path_sources_of(cur);
    let mut i: usize = 0;
    while i < sources.len()
        invariant
            sources@ == path_sources(cur),
            0 <= i <= sources@.len(),
            forall|j: int| 0 <= j < i ==> sources@[j] != prev,
        decreases sources@.len() - i,
    {
        if sources[i] == prev {
            return true;
        }
        i = i + 1;
    }
    false
}

} // verus!
