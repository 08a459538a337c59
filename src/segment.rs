use vstd::prelude::*;

verus! {

/// Which part of the two-level trie a row belongs to: the account trie, the
/// fields of an account leaf, the storage trie, or the storage leaf.
#[derive(Clone, Copy, Debug, PartialEq, Eq, Structural)]
pub enum SegmentType {
    /// The boundary between two updates: the row that holds the roots.
    Start,
    AccountTrie,
    AccountLeaf0,
    AccountLeaf1,
    AccountLeaf2,
    AccountLeaf3,
    AccountLeaf4,
    StorageTrie,
    StorageLeaf0,
    StorageLeaf1,
}

/// Every segment type, in declaration order.
pub open spec fn all_segment_types() -> Seq<SegmentType> {
    seq![
        SegmentType::Start,
        SegmentType::AccountTrie,
        SegmentType::AccountLeaf0,
        SegmentType::AccountLeaf1,
        SegmentType::AccountLeaf2,
        SegmentType::AccountLeaf3,
        SegmentType::AccountLeaf4,
        SegmentType::StorageTrie,
        SegmentType::StorageLeaf0,
        SegmentType::StorageLeaf1,
    ]
}

/// Whether the segment is one of the leaf segments.
pub open spec fn is_leaf_segment(s: SegmentType) -> bool {
    !(s == SegmentType::Start || s == SegmentType::AccountTrie || s == SegmentType::StorageTrie)
}

/// The segment types that may stand on the row just after a row of type
/// `source`: a walk descends the account trie to the account leaf, whose
/// fields come in order; it may go on into the storage trie and its leaf; and
/// it may end after the account trie (no such account), after the account
/// fields, after the storage trie (no such slot), or after the storage leaf.
pub open spec fn segment_targets(source: SegmentType) -> Seq<SegmentType> {
    match source {
        SegmentType::Start => seq![SegmentType::AccountTrie, SegmentType::AccountLeaf0],
        SegmentType::AccountTrie => seq![SegmentType::AccountTrie, SegmentType::AccountLeaf0, SegmentType::Start],
        SegmentType::AccountLeaf0 => seq![SegmentType::AccountLeaf1],
        SegmentType::AccountLeaf1 => seq![SegmentType::AccountLeaf2],
        SegmentType::AccountLeaf2 => seq![SegmentType::AccountLeaf3],
        SegmentType::AccountLeaf3 => seq![SegmentType::AccountLeaf4, SegmentType::Start],
        SegmentType::AccountLeaf4 => seq![SegmentType::StorageTrie, SegmentType::StorageLeaf0, SegmentType::Start],
        SegmentType::StorageTrie => seq![SegmentType::StorageTrie, SegmentType::StorageLeaf0, SegmentType::Start],
        SegmentType::StorageLeaf0 => seq![SegmentType::StorageLeaf1],
        SegmentType::StorageLeaf1 => seq![SegmentType::Start],
    }
}

/// The segment types that may stand on the row just before a row of type
/// `sink`.
pub open spec fn segment_sources(sink: SegmentType) -> Seq<SegmentType> {
    match sink {
        SegmentType::Start => seq![
            SegmentType::AccountTrie,
            SegmentType::AccountLeaf3,
            SegmentType::AccountLeaf4,
            SegmentType::StorageTrie,
            SegmentType::StorageLeaf1,
        ],
        SegmentType::AccountTrie => seq![SegmentType::Start, SegmentType::AccountTrie],
        SegmentType::AccountLeaf0 => seq![SegmentType::Start, SegmentType::AccountTrie],
        SegmentType::AccountLeaf1 => seq![SegmentType::AccountLeaf0],
        SegmentType::AccountLeaf2 => seq![SegmentType::AccountLeaf1],
        SegmentType::AccountLeaf3 => seq![SegmentType::AccountLeaf2],
        SegmentType::AccountLeaf4 => seq![SegmentType::AccountLeaf3],
        SegmentType::StorageTrie => seq![SegmentType::AccountLeaf4, SegmentType::StorageTrie],
        SegmentType::StorageLeaf0 => seq![SegmentType::AccountLeaf4, SegmentType::StorageTrie],
        SegmentType::StorageLeaf1 => seq![SegmentType::StorageLeaf0],
    }
}

/// Whether a row of type `cur` may follow a row of type `prev`.
pub open spec fn segment_may_follow(prev: SegmentType, cur: SegmentType) -> bool {
    segment_sources(cur).contains(prev)
}

/// The backward table is the forward table read the other way: `prev` may
/// stand before `cur` exactly when `cur` may stand after `prev`.
pub proof fn lemma_segment_tables_agree(prev: SegmentType, cur: SegmentType)
    ensures
        segment_sources(cur).contains(prev) <==> segment_targets(prev).contains(cur),
{
    let s = segment_sources(cur);
    let t = segment_targets(prev);
    if s.contains(prev) {
        let i = choose|i: int| 0 <= i < s.len() && s[i] == prev;
        assert(t[0] == cur || (t.len() > 1 && t[1] == cur) || (t.len() > 2 && t[2] == cur));
    }
    if t.contains(cur) {
        let i = choose|i: int| 0 <= i < t.len() && t[i] == cur;
        assert(s[0] == prev || (s.len() > 1 && s[1] == prev) || (s.len() > 2 && s[2] == prev)
            || (s.len() > 3 && s[3] == prev) || (s.len() > 4 && s[4] == prev));
    }
}

impl SegmentType {
    /// Every segment type, in declaration order.
    pub fn all() -> (r: Vec<SegmentType>)
        ensures
            r@ == all_segment_types(),
    {
        let r = vec![
            SegmentType::Start,
            SegmentType::AccountTrie,
            SegmentType::AccountLeaf0,
            SegmentType::AccountLeaf1,
            SegmentType::AccountLeaf2,
            SegmentType::AccountLeaf3,
            SegmentType::AccountLeaf4,
            SegmentType::StorageTrie,
            SegmentType::StorageLeaf0,
            SegmentType::StorageLeaf1,
        ];
        assert(r@ =~= all_segment_types());
        r
    }
}

/// The segment types allowed before `sink`.
pub fn segment_sources_of(sink: SegmentType) -> (r: Vec<SegmentType>)
    ensures
        r@ == segment_sources(sink),
{
    let r = match sink {
        SegmentType::Start => vec![
            SegmentType::AccountTrie,
            SegmentType::AccountLeaf3,
            SegmentType::AccountLeaf4,
            SegmentType::StorageTrie,
            SegmentType::StorageLeaf1,
        ],
        SegmentType::AccountTrie => vec![SegmentType::Start, SegmentType::AccountTrie],
        SegmentType::AccountLeaf0 => vec![SegmentType::Start, SegmentType::AccountTrie],
        SegmentType::AccountLeaf1 => vec![SegmentType::AccountLeaf0],
        SegmentType::AccountLeaf2 => vec![SegmentType::AccountLeaf1],
        SegmentType::AccountLeaf3 => vec![SegmentType::AccountLeaf2],
        SegmentType::AccountLeaf4 => vec![SegmentType::AccountLeaf3],
        SegmentType::StorageTrie => vec![SegmentType::AccountLeaf4, SegmentType::StorageTrie],
        SegmentType::StorageLeaf0 => vec![SegmentType::AccountLeaf4, SegmentType::StorageTrie],
        SegmentType::StorageLeaf1 => vec![SegmentType::StorageLeaf0],
    };
    assert(r@ =~= segment_sources(sink));
    r
}

/// The backward transitions of the segment state machine: each segment type
/// with the types allowed on the row before it.
pub fn backward_transitions() -> (r: Vec<(SegmentType, Vec<SegmentType>)>)
    ensures
        r@.len() == all_segment_types().len(),
        forall|i: int| 0 <= i < r@.len() ==> (#[trigger] r@[i]).0 == all_segment_types()[i] && r@[i].1@ == segment_sources(r@[i].0),
{
    let sinks = SegmentType::all();
    let mut r: Vec<(SegmentType, Vec<SegmentType>)> = Vec::new();
    let mut i: usize = 0;
    while i < sinks.len()
        invariant
            sinks@ == all_segment_types(),
            0 <= i <= sinks@.len(),
            r@.len() == i,
            forall|j: int| 0 <= j < i ==> (#[trigger] r@[j]).0 == all_segment_types()[j] && r@[j].1@ == segment_sources(r@[j].0),
        decreases sinks@.len() - i,
    {
        let sink = sinks[i];
        r.push((sink, segment_sources_of(sink)));
        i = i + 1;
    }
    r
}

/// Whether a row of type `cur` may follow a row of type `prev`.
pub fn segment_transition_allowed(prev: SegmentType, cur: SegmentType) -> (r: bool)
    ensures
        r == segment_may_follow(prev, cur),
{
    let sources = segment_sources_of(cur);
    let mut i: usize = 0;
    while i < sources.len()
        invariant
            sources@ == segment_sources(cur),
            0 <= i <= sources@.len(),
            forall|j: int| 0 <= j < i ==> sources@[j] != prev,
        decreases sources@.len() - i,
    {
        if sources[i] == prev {
            return true;
        }
        i = i + 1;
    }
    false
}

} // verus!
