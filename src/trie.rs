use vstd::prelude::*;

use crate::field::{spec_bit, Fr};
use crate::hash::{hash_of, hash_pair, is_hash_fn};
use crate::path::PathType;
use itertools::{EitherOrBoth, Itertools};

verus! {

/// One node of a root-to-leaf trie walk: the node's hash and its sibling's.
#[derive(Clone, Copy, Debug, PartialEq, Eq, Structural)]
pub struct SmtNode {
    pub value: Fr,
    pub sibling: Fr,
}

/// One step of a root-to-leaf walk over the old and the new tree.
#[derive(Clone, Copy, Debug, PartialEq, Eq, Structural)]
pub struct TrieRow {
    pub old: Fr,
    pub new: Fr,
    pub sibling: Fr,
    pub direction: bool,
    pub path_type: PathType,
}

/// The rows of one walk, from the root down to the leaf.
#[derive(Clone, Debug)]
pub struct TrieRows(pub Vec<TrieRow>);

/// Why a walk could not be turned into rows.
#[derive(Clone, Copy, Debug, PartialEq, Eq, Structural)]
pub enum TrieError {
    /// The old and the new node at this depth record different siblings.
    SiblingMismatch { depth: usize },
}

impl TrieRow {
    pub open spec fn old_left(self) -> Fr {
        if self.direction { self.sibling } else { self.old }
    }

    pub open spec fn old_right(self) -> Fr {
        if self.direction { self.old } else { self.sibling }
    }

    pub open spec fn new_left(self) -> Fr {
        if self.direction { self.sibling } else { self.new }
    }

    pub open spec fn new_right(self) -> Fr {
        if self.direction { self.new } else { self.sibling }
    }

    /// The hash of the parent node on the old side.
    pub open spec fn spec_old_hash<H: Fn(Fr, Fr) -> Fr>(self, h: H) -> Fr {
        if self.path_type == PathType::ExtensionNew {
            self.old
        } else {
            hash_of(h, self.old_left(), self.old_right())
        }
    }

    /// The hash of the parent node on the new side.
    pub open spec fn spec_new_hash<H: Fn(Fr, Fr) -> Fr>(self, h: H) -> Fr {
        if self.path_type == PathType::ExtensionOld {
            self.new
        } else {
            hash_of(h, self.new_left(), self.new_right())
        }
    }

    pub fn old_hash<H: Fn(Fr, Fr) -> Fr>(&self, hash: &H) -> (r: Fr)
        requires
            is_hash_fn(*hash),
        ensures
            r == self.spec_old_hash(*hash),
    {
        if let PathType::ExtensionNew = self.path_type {
            self.old
        } else if self.direction {
            hash_pair(hash, self.sibling, self.old)
        } else {
            hash_pair(hash, self.old, self.sibling)
        }
    }

    pub fn new_hash<H: Fn(Fr, Fr) -> Fr>(&self, hash: &H) -> (r: Fr)
        requires
            is_hash_fn(*hash),
        ensures
            r == self.spec_new_hash(*hash),
    {
        if let PathType::ExtensionOld = self.path_type {
            self.new
        } else if self.direction {
            hash_pair(hash, self.sibling, self.new)
        } else {
            hash_pair(hash, self.new, self.sibling)
        }
    }
}

/// The hash of a leaf node: `H(H(1, sibling), value)`.
pub open spec fn spec_leaf_hash<H: Fn(Fr, Fr) -> Fr>(leaf: SmtNode, h: H) -> Fr {
    hash_of(h, hash_of(h, Fr(1, 0, 0, 0), leaf.sibling), leaf.value)
}

pub fn leaf_hash<H: Fn(Fr, Fr) -> Fr>(leaf: SmtNode, hash: &H) -> (r: Fr)
    requires
        is_hash_fn(*hash),
    ensures
        r == spec_leaf_hash(leaf, *hash),
{
    let inner = hash_pair(hash, Fr::one(), leaf.sibling);
    hash_pair(hash, inner, leaf.value)
}

/// What the walk ends in on one side: the last node's hash, else the hash of
/// the leaf record, else zero.
pub open spec fn terminal_hash<H: Fn(Fr, Fr) -> Fr>(
    nodes: Seq<SmtNode>,
    leaf: Option<SmtNode>,
    h: H,
) -> Fr {
    if nodes.len() > 0 {
        nodes.last().value
    } else {
        match leaf {
            Some(l) => spec_leaf_hash(l, h),
            None => Fr(0, 0, 0, 0),
        }
    }
}

/// Whether the old and the new path record the same sibling at every depth
/// below `n` that both reach.
pub open spec fn siblings_agree_below(old_nodes: Seq<SmtNode>, new_nodes: Seq<SmtNode>, n: int) -> bool {
    forall|i: int|
        0 <= i < n && i < old_nodes.len() && i < new_nodes.len() ==> #[trigger] old_nodes[i].sibling
            == new_nodes[i].sibling
}

/// Whether the old and the new path record the same sibling at every depth
/// that both reach.
pub open spec fn siblings_agree(old_nodes: Seq<SmtNode>, new_nodes: Seq<SmtNode>) -> bool {
    siblings_agree_below(old_nodes, new_nodes, old_nodes.len() as int)
}

pub open spec fn max_len(a: nat, b: nat) -> nat {
    if a >= b { a } else { b }
}

/// The row at depth `i` of the walk.
pub open spec fn expected_row<H: Fn(Fr, Fr) -> Fr>(
    key: Fr,
    old_nodes: Seq<SmtNode>,
    new_nodes: Seq<SmtNode>,
    old_leaf: Option<SmtNode>,
    new_leaf: Option<SmtNode>,
    h: H,
    i: int,
) -> TrieRow {
    let direction = spec_bit(key, i);
    if i < old_nodes.len() && i < new_nodes.len() {
        TrieRow {
            direction,
            old: old_nodes[i].value,
            new: new_nodes[i].value,
            sibling: old_nodes[i].sibling,
            path_type: PathType::Common,
        }
    } else if i < old_nodes.len() {
        TrieRow {
            direction,
            old: old_nodes[i].value,
            new: terminal_hash(new_nodes, new_leaf, h),
            sibling: old_nodes[i].sibling,
            path_type: PathType::ExtensionOld,
        }
    } else {
        TrieRow {
            direction,
            old: terminal_hash(old_nodes, old_leaf, h),
            new: new_nodes[i].value,
            sibling: new_nodes[i].sibling,
            path_type: PathType::ExtensionNew,
        }
    }
}

/// The nodes of the two paths at one depth.
enum NodePair {
    Both(SmtNode, SmtNode),
    Left(SmtNode),
    Right(SmtNode),
}

spec fn spec_node_pair(old_nodes: Seq<SmtNode>, new_nodes: Seq<SmtNode>, i: int) -> NodePair {
    if i < old_nodes.len() && i < new_nodes.len() {
        NodePair::Both(old_nodes[i], new_nodes[i])
    } else if i < old_nodes.len() {
        NodePair::Left(old_nodes[i])
    } else {
        NodePair::Right(new_nodes[i])
    }
}

/// Relies on itertools::Itertools::zip_longest: it pairs the items at each
/// position while both lists have one, then yields the rest of the longer
/// list alone, in order.
#[verifier::external_body]
fn zip_nodes(old_nodes: &[SmtNode], new_nodes: &[SmtNode]) -> (r: Vec<NodePair>)
    ensures
        r@.len() == max_len(old_nodes@.len(), new_nodes@.len()),
        forall|i: int| 0 <= i < r@.len() ==> #[trigger] r@[i] == spec_node_pair(old_nodes@, new_nodes@, i),
{
    old_nodes.iter().zip_longest(new_nodes.iter()).map(|pair| match pair {
        EitherOrBoth::Both(old, new) => NodePair::Both(*old, *new),
        EitherOrBoth::Left(old) => NodePair::Left(*old),
        EitherOrBoth::Right(new) => NodePair::Right(*new),
    }).collect()
}

fn terminal<H: Fn(Fr, Fr) -> Fr>(nodes: &[SmtNode], leaf: Option<SmtNode>, hash: &H) -> (r: Fr)
    requires
        is_hash_fn(*hash),
    ensures
        r == terminal_hash(nodes@, leaf, *hash),
{
    if nodes.len() > 0 {
        nodes[nodes.len() - 1].value
    } else {
        match leaf {
            Some(l) => leaf_hash(l, hash),
            None => Fr::zero(),
        }
    }
}

impl TrieRows {
    /// Builds the rows of one update's walk. Depth `i` takes its direction
    /// from bit `i` of `key`. A depth that both paths reach gives a `Common`
    /// row; a depth that only one reaches gives an extension row, whose other
    /// side holds what the shorter path ended in. Fails at the first depth
    /// where the two paths record different siblings.
    pub fn new<H: Fn(Fr, Fr) -> Fr>(
        key: Fr,
        old_nodes: &[SmtNode],
        new_nodes: &[SmtNode],
        old_leaf: Option<SmtNode>,
        new_leaf: Option<SmtNode>,
        hash: &H,
    ) -> (r: Result<TrieRows, TrieError>)
        requires
            is_hash_fn(*hash),
        ensures
            r is Ok <==> siblings_agree(old_nodes@, new_nodes@),
            r matches Ok(rows) ==> {
                &&& rows.0@.len() == max_len(old_nodes@.len(), new_nodes@.len())
                &&& forall|i: int|
                    0 <= i < rows.0@.len() ==> #[trigger] rows.0@[i] == expected_row(
                        key,
                        old_nodes@,
                        new_nodes@,
                        old_leaf,
                        new_leaf,
                        *hash,
                        i,
                    )
            },
            r matches Err(TrieError::SiblingMismatch { depth }) ==> {
                &&& depth < old_nodes@.len() && depth < new_nodes@.len()
                &&& old_nodes@[depth as int].sibling != new_nodes@[depth as int].sibling
                &&& siblings_agree_below(old_nodes@, new_nodes@, depth as int)
            },
    {
        let old_leaf_hash = terminal(old_nodes, old_leaf, hash);
        let new_leaf_hash = terminal(new_nodes, new_leaf, hash);
        let pairs = zip_nodes(old_nodes, new_nodes);
        let mut rows: Vec<TrieRow> = Vec::new();
        let mut i: usize = 0;
        while i < pairs.len()
            invariant
                is_hash_fn(*hash),
                pairs@.len() == max_len(old_nodes@.len(), new_nodes@.len()),
                forall|j: int| 0 <= j < pairs@.len() ==> #[trigger] pairs@[j] == spec_node_pair(old_nodes@, new_nodes@, j),
                old_leaf_hash == terminal_hash(old_nodes@, old_leaf, *hash),
                new_leaf_hash == terminal_hash(new_nodes@, new_leaf, *hash),
                0 <= i <= pairs@.len(),
                rows@.len() == i,
                siblings_agree_below(old_nodes@, new_nodes@, i as int),
                forall|j: int|
                    0 <= j < i ==> #[trigger] rows@[j] == expected_row(
                        key,
                        old_nodes@,
                        new_nodes@,
                        old_leaf,
                        new_leaf,
                        *hash,
                        j,
                    ),
            decreases pairs@.len() - i,
        {
            let direction = key.bit(i);
            let row = match &pairs[i] {
                NodePair::Both(old, new) => {
                    if old.sibling != new.sibling {
                        return Err(TrieError::SiblingMismatch { depth: i });
                    }
                    TrieRow {
                        direction,
                        old: old.value,
                        new: new.value,
                        sibling: old.sibling,
                        path_type: PathType::Common,
                    }
                },
                NodePair::Left(old) => TrieRow {
                    direction,
                    old: old.value,
                    new: new_leaf_hash,
                    sibling: old.sibling,
                    path_type: PathType::ExtensionOld,
                },
                NodePair::Right(new) => TrieRow {
                    direction,
                    old: old_leaf_hash,
                    new: new.value,
                    sibling: new.sibling,
                    path_type: PathType::ExtensionNew,
                },
            };
            rows.push(row);
            i = i + 1;
        }
        Ok(TrieRows(rows))
    }
}

/// The hash triples `(left, right, H(left, right))` that one row asks the
/// hash table for: none for `Start`, the old and the new one for `Common`,
/// and the one of the side that goes on for an extension.
pub open spec fn row_poseidon_lookups<H: Fn(Fr, Fr) -> Fr>(row: TrieRow, h: H) -> Seq<(Fr, Fr, Fr)> {
    let old = (row.old_left(), row.old_right(), hash_of(h, row.old_left(), row.old_right()));
    let new = (row.new_left(), row.new_right(), hash_of(h, row.new_left(), row.new_right()));
    match row.path_type {
        PathType::Start => seq![],
        PathType::Common => seq![old, new],
        PathType::ExtensionOld => seq![old],
        PathType::ExtensionNew => seq![new],
    }
}

/// The hash triples of all rows, row by row.
pub open spec fn poseidon_lookups_of<H: Fn(Fr, Fr) -> Fr>(rows: Seq<TrieRow>, h: H) -> Seq<(Fr, Fr, Fr)>
    decreases rows.len(),
{
    if rows.len() == 0 {
        seq![]
    } else {
        poseidon_lookups_of(rows.drop_last(), h) + row_poseidon_lookups(rows.last(), h)
    }
}

/// The key-bit triples `(key, depth, bit)` that the row at depth `i` asks
/// for: none for `Start`, the walk's own key and the other key for `Common`,
/// the walk's own key alone for an extension.
pub open spec fn row_key_bit_lookups(row: TrieRow, i: int, key: Fr, other_key: Fr) -> Seq<(Fr, usize, bool)> {
    match row.path_type {
        PathType::Start => seq![],
        PathType::Common => seq![(key, i as usize, row.direction), (other_key, i as usize, row.direction)],
        _ => seq![(key, i as usize, row.direction)],
    }
}

/// The key-bit triples of all rows, row by row.
pub open spec fn key_bit_lookups_of(rows: Seq<TrieRow>, key: Fr, other_key: Fr) -> Seq<(Fr, usize, bool)>
    decreases rows.len(),
{
    if rows.len() == 0 {
        seq![]
    } else {
        key_bit_lookups_of(rows.drop_last(), key, other_key) + row_key_bit_lookups(
            rows.last(),
            rows.len() - 1,
            key,
            other_key,
        )
    }
}

impl TrieRows {
    pub fn len(&self) -> (r: usize)
        ensures
            r == self.0@.len(),
    {
        self.0.len()
    }

    /// The hash triples that the rows ask the hash table for, row by row.
    pub fn poseidon_lookups<H: Fn(Fr, Fr) -> Fr>(&self, hash: &H) -> (r: Vec<(Fr, Fr, Fr)>)
        requires
            is_hash_fn(*hash),
        ensures
            r@ == poseidon_lookups_of(self.0@, *hash),
    {
        let mut lookups: Vec<(Fr, Fr, Fr)> = Vec::new();
        let mut i: usize = 0;
        while i < self.0.len()
            invariant
                is_hash_fn(*hash),
                0 <= i <= self.0@.len(),
                lookups@ == poseidon_lookups_of(self.0@.take(i as int), *hash),
            decreases self.0@.len() - i,
        {
            let row = self.0[i];
            let (old_left, old_right) = if row.direction {
                (row.sibling, row.old)
            } else {
                (row.old, row.sibling)
            };
            let (new_left, new_right) = if row.direction {
                (row.sibling, row.new)
            } else {
                (row.new, row.sibling)
            };
            match row.path_type {
                PathType::Start => {},
                PathType::Common => {
                    lookups.push((old_left, old_right, hash_pair(hash, old_left, old_right)));
                    lookups.push((new_left, new_right, hash_pair(hash, new_left, new_right)));
                },
                PathType::ExtensionOld => {
                    lookups.push((old_left, old_right, hash_pair(hash, old_left, old_right)));
                },
                PathType::ExtensionNew => {
                    lookups.push((new_left, new_right, hash_pair(hash, new_left, new_right)));
                },
            }
            assert(self.0@.take(i + 1).drop_last() =~= self.0@.take(i as int));
            assert(lookups@ =~= poseidon_lookups_of(self.0@.take(i + 1), *hash));
            i = i + 1;
        }
        assert(self.0@.take(i as int) =~= self.0@);
        lookups
    }

    /// The key-bit triples that the rows ask for: `key` at every depth that
    /// is not `Start`, and `other_key` too at each `Common` depth.
    pub fn key_bit_lookups(&self, key: Fr, other_key: Fr) -> (r: Vec<(Fr, usize, bool)>)
        ensures
            r@ == key_bit_lookups_of(self.0@, key, other_key),
    {
        let mut lookups: Vec<(Fr, usize, bool)> = Vec::new();
        let mut i: usize = 0;
        while i < self.0.len()
            invariant
                0 <= i <= self.0@.len(),
                lookups@ == key_bit_lookups_of(self.0@.take(i as int), key, other_key),
            decreases self.0@.len() - i,
        {
            let row = self.0[i];
            match row.path_type {
                PathType::Start => {},
                PathType::Common => {
                    lookups.push((key, i, row.direction));
                    lookups.push((other_key, i, row.direction));
                },
                PathType::ExtensionOld | PathType::ExtensionNew => {
                    lookups.push((key, i, row.direction));
                },
            }
            assert(self.0@.take(i + 1).drop_last() =~= self.0@.take(i as int));
            assert(lookups@ =~= key_bit_lookups_of(self.0@.take(i + 1), key, other_key));
            i = i + 1;
        }
        assert(self.0@.take(i as int) =~= self.0@);
        lookups
    }

    /// The old root: the old hash of the first row, or what `leaf_hash`
    /// gives when there are no rows.
    pub fn old_root<H: Fn(Fr, Fr) -> Fr, L: FnOnce() -> Fr>(&self, leaf_hash: L, hash: &H) -> (r: Fr)
        requires
            is_hash_fn(*hash),
            self.0@.len() == 0 ==> leaf_hash.requires(()),
        ensures
            self.0@.len() > 0 ==> r == self.0@[0].spec_old_hash(*hash),
            self.0@.len() == 0 ==> leaf_hash.ensures((), r),
    {
        if self.0.len() > 0 {
            self.0[0].old_hash(hash)
        } else {
            leaf_hash()
        }
    }

    /// The new root: the new hash of the first row, or what `leaf_hash`
    /// gives when there are no rows.
    pub fn new_root<H: Fn(Fr, Fr) -> Fr, L: FnOnce() -> Fr>(&self, leaf_hash: L, hash: &H) -> (r: Fr)
        requires
            is_hash_fn(*hash),
            self.0@.len() == 0 ==> leaf_hash.requires(()),
        ensures
            self.0@.len() > 0 ==> r == self.0@[0].spec_new_hash(*hash),
            self.0@.len() == 0 ==> leaf_hash.ensures((), r),
    {
        if self.0.len() > 0 {
            self.0[0].new_hash(hash)
        } else {
            leaf_hash()
        }
    }
}

/// Folds the old side upward through `rows`, starting from `child`, the
/// value that comes up from below the last row: each row combines what comes
/// from below with its own sibling.
pub open spec fn fold_old<H: Fn(Fr, Fr) -> Fr>(rows: Seq<TrieRow>, h: H, child: Fr) -> Fr
    decreases rows.len(),
{
    if rows.len() == 0 {
        child
    } else {
        fold_old(rows.drop_last(), h, TrieRow { old: child, ..rows.last() }.spec_old_hash(h))
    }
}

/// Folds the new side upward through `rows`, starting from `child`.
pub open spec fn fold_new<H: Fn(Fr, Fr) -> Fr>(rows: Seq<TrieRow>, h: H, child: Fr) -> Fr
    decreases rows.len(),
{
    if rows.len() == 0 {
        child
    } else {
        fold_new(rows.drop_last(), h, TrieRow { new: child, ..rows.last() }.spec_new_hash(h))
    }
}

/// Each row's old value is the old hash of the row below it.
pub open spec fn old_chain_holds<H: Fn(Fr, Fr) -> Fr>(rows: Seq<TrieRow>, h: H) -> bool {
    forall|i: int| 0 < i < rows.len() ==> rows[i - 1].old == #[trigger] rows[i].spec_old_hash(h)
}

/// Each row's new value is the new hash of the row below it.
pub open spec fn new_chain_holds<H: Fn(Fr, Fr) -> Fr>(rows: Seq<TrieRow>, h: H) -> bool {
    forall|i: int| 0 < i < rows.len() ==> rows[i - 1].new == #[trigger] rows[i].spec_new_hash(h)
}

/// Folding the old side from the leaf row up to the top, with the recorded
/// siblings and directions, gives the old root (the first row's old hash),
/// wherever each row's old value is the old hash of the row below it; and
/// likewise on the new side.
pub proof fn lemma_hash_chain<H: Fn(Fr, Fr) -> Fr>(rows: Seq<TrieRow>, h: H)
    requires
        rows.len() > 0,
    ensures
        old_chain_holds(rows, h) ==> fold_old(rows, h, rows.last().old) == rows[0].spec_old_hash(h),
        new_chain_holds(rows, h) ==> fold_new(rows, h, rows.last().new) == rows[0].spec_new_hash(h),
    decreases rows.len(),
{
    let last = rows.last();
    assert(TrieRow { old: last.old, ..last } == last);
    assert(TrieRow { new: last.new, ..last } == last);
    let up = rows.drop_last();
    assert(fold_old(rows, h, last.old) == fold_old(up, h, last.spec_old_hash(h)));
    assert(fold_new(rows, h, last.new) == fold_new(up, h, last.spec_new_hash(h)));
    if rows.len() == 1 {
        assert(fold_old(up, h, last.spec_old_hash(h)) == last.spec_old_hash(h));
        assert(fold_new(up, h, last.spec_new_hash(h)) == last.spec_new_hash(h));
    } else {
        lemma_hash_chain(up, h);
        assert(up.last() == rows[rows.len() - 2]);
        assert(up[0] == rows[0]);
        if old_chain_holds(rows, h) {
            assert(rows[rows.len() - 2].old == rows[rows.len() - 1].spec_old_hash(h));
            assert forall|i: int| 0 < i < up.len() implies up[i - 1].old == #[trigger] up[i].spec_old_hash(h) by {
                assert(rows[i - 1].old == rows[i].spec_old_hash(h));
            }
        }
        if new_chain_holds(rows, h) {
            assert(rows[rows.len() - 2].new == rows[rows.len() - 1].spec_new_hash(h));
            assert forall|i: int| 0 < i < up.len() implies up[i - 1].new == #[trigger] up[i].spec_new_hash(h) by {
                assert(rows[i - 1].new == rows[i].spec_new_hash(h));
            }
        }
    }
}

/// The hash of a parent whose child at `direction` is `child`.
pub open spec fn combine<H: Fn(Fr, Fr) -> Fr>(h: H, direction: bool, sibling: Fr, child: Fr) -> Fr {
    if direction {
        hash_of(h, sibling, child)
    } else {
        hash_of(h, child, sibling)
    }
}

/// The nodes of one path form a hash chain: each node's hash is what the
/// node at the next depth combines to with its sibling, in the direction
/// that bit of `key` gives.
pub open spec fn path_chain_holds<H: Fn(Fr, Fr) -> Fr>(key: Fr, nodes: Seq<SmtNode>, h: H) -> bool {
    forall|i: int|
        0 < i < nodes.len() ==> nodes[i - 1].value == combine(
            h,
            spec_bit(key, i),
            (#[trigger] nodes[i]).sibling,
            nodes[i].value,
        )
}

proof fn lemma_old_link<H: Fn(Fr, Fr) -> Fr>(
    key: Fr,
    old_nodes: Seq<SmtNode>,
    new_nodes: Seq<SmtNode>,
    old_leaf: Option<SmtNode>,
    new_leaf: Option<SmtNode>,
    h: H,
    i: int,
)
    requires
        0 < i < max_len(old_nodes.len(), new_nodes.len()),
        i < old_nodes.len() ==> old_nodes[i - 1].value == combine(
            h,
            spec_bit(key, i),
            old_nodes[i].sibling,
            old_nodes[i].value,
        ),
    ensures
        expected_row(key, old_nodes, new_nodes, old_leaf, new_leaf, h, i - 1).old == expected_row(
            key,
            old_nodes,
            new_nodes,
            old_leaf,
            new_leaf,
            h,
            i,
        ).spec_old_hash(h),
{
}

proof fn lemma_new_link<H: Fn(Fr, Fr) -> Fr>(
    key: Fr,
    old_nodes: Seq<SmtNode>,
    new_nodes: Seq<SmtNode>,
    old_leaf: Option<SmtNode>,
    new_leaf: Option<SmtNode>,
    h: H,
    i: int,
)
    requires
        0 < i < max_len(old_nodes.len(), new_nodes.len()),
        i < old_nodes.len() && i < new_nodes.len() ==> old_nodes[i].sibling == new_nodes[i].sibling,
        i < new_nodes.len() ==> new_nodes[i - 1].value == combine(
            h,
            spec_bit(key, i),
            new_nodes[i].sibling,
            new_nodes[i].value,
        ),
    ensures
        expected_row(key, old_nodes, new_nodes, old_leaf, new_leaf, h, i - 1).new == expected_row(
            key,
            old_nodes,
            new_nodes,
            old_leaf,
            new_leaf,
            h,
            i,
        ).spec_new_hash(h),
{
}

/// Rows built from paths that form hash chains form hash chains too, on
/// each side; and the first row's hashes are the roots of the two paths.
pub proof fn lemma_rows_chain<H: Fn(Fr, Fr) -> Fr>(
    key: Fr,
    old_nodes: Seq<SmtNode>,
    new_nodes: Seq<SmtNode>,
    old_leaf: Option<SmtNode>,
    new_leaf: Option<SmtNode>,
    h: H,
    rows: Seq<TrieRow>,
)
    requires
        siblings_agree(old_nodes, new_nodes),
        rows.len() == max_len(old_nodes.len(), new_nodes.len()),
        forall|i: int|
            0 <= i < rows.len() ==> #[trigger] rows[i] == expected_row(
                key,
                old_nodes,
                new_nodes,
                old_leaf,
                new_leaf,
                h,
                i,
            ),
    ensures
        path_chain_holds(key, old_nodes, h) ==> old_chain_holds(rows, h),
        path_chain_holds(key, new_nodes, h) ==> new_chain_holds(rows, h),
        old_nodes.len() > 0 ==> rows[0].spec_old_hash(h) == combine(
            h,
            spec_bit(key, 0),
            old_nodes[0].sibling,
            old_nodes[0].value,
        ),
        new_nodes.len() > 0 ==> rows[0].spec_new_hash(h) == combine(
            h,
            spec_bit(key, 0),
            new_nodes[0].sibling,
            new_nodes[0].value,
        ),
{
    if rows.len() > 0 {
        assert(rows[0] == expected_row(key, old_nodes, new_nodes, old_leaf, new_leaf, h, 0));
        if old_nodes.len() > 0 && new_nodes.len() > 0 {
            assert(old_nodes[0].sibling == new_nodes[0].sibling);
        }
    }
    if path_chain_holds(key, old_nodes, h) {
        assert forall|i: int| 0 < i < rows.len() implies rows[i - 1].old == #[trigger] rows[i].spec_old_hash(h) by {
            assert(rows[i - 1] == expected_row(key, old_nodes, new_nodes, old_leaf, new_leaf, h, i - 1));
            if i < old_nodes.len() {
                assert(old_nodes[i - 1].value == combine(h, spec_bit(key, i), old_nodes[i].sibling, old_nodes[i].value));
            }
            lemma_old_link(key, old_nodes, new_nodes, old_leaf, new_leaf, h, i);
        }
    }
    if path_chain_holds(key, new_nodes, h) {
        assert forall|i: int| 0 < i < rows.len() implies rows[i - 1].new == #[trigger] rows[i].spec_new_hash(h) by {
            assert(rows[i - 1] == expected_row(key, old_nodes, new_nodes, old_leaf, new_leaf, h, i - 1));
            if i < new_nodes.len() {
                assert(new_nodes[i - 1].value == combine(h, spec_bit(key, i), new_nodes[i].sibling, new_nodes[i].value));
            }
            if i < old_nodes.len() && i < new_nodes.len() {
                assert(old_nodes[i].sibling == new_nodes[i].sibling);
            }
            lemma_new_link(key, old_nodes, new_nodes, old_leaf, new_leaf, h, i);
        }
    }
}

/// The walk's rows are classified by which paths reach each depth: `Common`
/// below the shorter path's length, and from there on `ExtensionOld` where
/// the old path is the longer one, `ExtensionNew` where the new one is.
pub proof fn lemma_row_classification<H: Fn(Fr, Fr) -> Fr>(
    key: Fr,
    old_nodes: Seq<SmtNode>,
    new_nodes: Seq<SmtNode>,
    old_leaf: Option<SmtNode>,
    new_leaf: Option<SmtNode>,
    h: H,
    i: int,
)
    requires
        0 <= i < max_len(old_nodes.len(), new_nodes.len()),
    ensures
        ({
            let row = expected_row(key, old_nodes, new_nodes, old_leaf, new_leaf, h, i);
            &&& i < old_nodes.len() && i < new_nodes.len() ==> row.path_type == PathType::Common
            &&& i >= new_nodes.len() ==> row.path_type == PathType::ExtensionOld
            &&& i >= old_nodes.len() ==> row.path_type == PathType::ExtensionNew
        }),
{
}

/// Where both paths record the same siblings, each `Common` row's sibling is
/// the sibling of the old and of the new node at its depth.
pub proof fn lemma_common_sibling<H: Fn(Fr, Fr) -> Fr>(
    key: Fr,
    old_nodes: Seq<SmtNode>,
    new_nodes: Seq<SmtNode>,
    old_leaf: Option<SmtNode>,
    new_leaf: Option<SmtNode>,
    h: H,
    i: int,
)
    requires
        siblings_agree(old_nodes, new_nodes),
        0 <= i < max_len(old_nodes.len(), new_nodes.len()),
        expected_row(key, old_nodes, new_nodes, old_leaf, new_leaf, h, i).path_type == PathType::Common,
    ensures
        expected_row(key, old_nodes, new_nodes, old_leaf, new_leaf, h, i).sibling == old_nodes[i].sibling,
        expected_row(key, old_nodes, new_nodes, old_leaf, new_leaf, h, i).sibling == new_nodes[i].sibling,
{
    assert(old_nodes[i].sibling == new_nodes[i].sibling);
}

/// How many hash triples a row of each path type asks for.
pub open spec fn poseidon_lookup_count(path_type: PathType) -> nat {
    match path_type {
        PathType::Start => 0,
        PathType::Common => 2,
        PathType::ExtensionOld => 1,
        PathType::ExtensionNew => 1,
    }
}

pub open spec fn total_poseidon_lookup_count(rows: Seq<TrieRow>) -> nat
    decreases rows.len(),
{
    if rows.len() == 0 {
        0
    } else {
        total_poseidon_lookup_count(rows.drop_last()) + poseidon_lookup_count(rows.last().path_type)
    }
}

/// Each row asks for as many hash triples as its path type says, and every
/// triple `(l, r, x)` asked for is one where `x` is the hash of `(l, r)`.
pub proof fn lemma_poseidon_lookups<H: Fn(Fr, Fr) -> Fr>(rows: Seq<TrieRow>, h: H)
    ensures
        forall|i: int| 0 <= i < rows.len() ==> (#[trigger] row_poseidon_lookups(rows[i], h)).len()
            == poseidon_lookup_count(rows[i].path_type),
        poseidon_lookups_of(rows, h).len() == total_poseidon_lookup_count(rows),
        forall|k: int| 0 <= k < poseidon_lookups_of(rows, h).len() ==> (#[trigger] poseidon_lookups_of(rows, h)[k]).2
            == hash_of(h, poseidon_lookups_of(rows, h)[k].0, poseidon_lookups_of(rows, h)[k].1),
    decreases rows.len(),
{
    if rows.len() > 0 {
        let up = rows.drop_last();
        lemma_poseidon_lookups(up, h);
        let all = poseidon_lookups_of(rows, h);
        let first = poseidon_lookups_of(up, h);
        assert forall|k: int| 0 <= k < all.len() implies (#[trigger] all[k]).2 == hash_of(h, all[k].0, all[k].1) by {
            if k < first.len() {
                assert(all[k] == first[k]);
            }
        }
    }
}

} // verus!
