use vstd::prelude::*;

use crate::field::{address_to_fr, spec_address_to_fr, spec_bit, Fr};
use crate::hash::{hash_pair, is_hash_fn};
use crate::trie::combine;
use crate::path::{path_may_follow, path_transition_allowed, PathType};
use crate::proof_type::{is_unsupported, proof_type_index, MPTProofType};
use crate::segment::{is_leaf_segment, segment_may_follow, segment_transition_allowed, SegmentType};

verus! {

/// One row of the update table: the values that the circuit's columns hold
/// at one offset.
#[derive(Clone, Copy, Debug, PartialEq, Eq, Structural)]
pub struct MptRow {
    /// Whether the row is active.
    pub selector: bool,
    pub old_hash: Fr,
    pub new_hash: Fr,
    pub proof_key: Fr,
    pub old_value_rlc: Fr,
    pub new_value_rlc: Fr,
    pub proof_type: MPTProofType,
    pub address: Fr,
    pub storage_key_rlc: Fr,
    pub segment_type: SegmentType,
    pub path_type: PathType,
    pub depth: u64,
    pub path_key: Fr,
    pub direction: bool,
    pub sibling: Fr,
}

/// Which constraint a row breaks.
#[derive(Clone, Copy, Debug, PartialEq, Eq, Structural)]
pub enum ConstraintKind {
    /// The row's proof type has no constraints and is refused.
    UnsupportedProofType,
    /// The segment type may not follow the previous row's.
    SegmentTransition,
    /// The path type may not follow the previous row's.
    PathTransition,
    /// The depth is not 0 where it must be, or does not grow by one.
    Depth,
    /// An extension row has a nonzero sibling.
    ExtensionSibling,
    /// An extension row changes the hash of the side that already ended.
    FrozenHash,
    /// An account-leaf row of a nonce update is not on the common path.
    LeafPathNotCommon,
    /// An account-leaf row of a nonce update has direction 1.
    LeafDirection,
    /// The packed nonce and code size of a nonce update do not fit their bytes.
    NonceWidth,
    /// A nonce update reaches a segment that it never may.
    Unreachable,
    /// A row in the account or storage trie goes in a direction other than
    /// the bit of its key at its depth.
    KeyBit,
    /// The previous row's hash is not the hash of this row's node with its
    /// sibling.
    HashStep,
}

/// The first row of a table that breaks a constraint, and which one.
#[derive(Clone, Copy, Debug, PartialEq, Eq, Structural)]
pub struct RowError {
    pub offset: usize,
    pub kind: ConstraintKind,
}

pub open spec fn is_zero(f: Fr) -> bool {
    f == Fr(0, 0, 0, 0)
}

/// Whether `hash_input` packs `nonce` in its low 8 bytes and a code size in
/// the next 8: the nonce fits 8 bytes, the packed value 16, and the two
/// agree on the low 8.
pub open spec fn nonce_packed(hash_input: Fr, nonce: Fr) -> bool {
    &&& nonce.1 == 0 && nonce.2 == 0 && nonce.3 == 0
    &&& hash_input.2 == 0 && hash_input.3 == 0
    &&& hash_input.0 == nonce.0
}

/// Whether the row's depth is as the segment state machine wants it: 0 at
/// `Start` and in leaf segments, and one more than the previous row's while
/// the walk stays in the account or the storage trie.
pub open spec fn depth_ok(prev: Option<MptRow>, cur: MptRow) -> bool {
    &&& (cur.segment_type == SegmentType::Start || is_leaf_segment(cur.segment_type)) ==> cur.depth == 0
    &&& match prev {
        Some(p) => p.segment_type == cur.segment_type && !is_leaf_segment(cur.segment_type)
            && cur.segment_type != SegmentType::Start ==> cur.depth == p.depth + 1,
        None => true,
    }
}

/// The constraint of the row's path type that it breaks, if any.
pub open spec fn path_violation(prev: Option<MptRow>, cur: MptRow) -> Option<ConstraintKind> {
    match cur.path_type {
        PathType::ExtensionOld => if !is_zero(cur.sibling) {
            Some(ConstraintKind::ExtensionSibling)
        } else if prev matches Some(p) && cur.new_hash != p.new_hash {
            Some(ConstraintKind::FrozenHash)
        } else {
            None
        },
        PathType::ExtensionNew => if prev matches Some(p) && cur.old_hash != p.old_hash {
            Some(ConstraintKind::FrozenHash)
        } else if !is_zero(cur.sibling) {
            Some(ConstraintKind::ExtensionSibling)
        } else {
            None
        },
        _ => None,
    }
}

/// The constraint of a nonce update that the row breaks, if any.
pub open spec fn nonce_violation(prev: Option<MptRow>, cur: MptRow) -> Option<ConstraintKind> {
    match cur.segment_type {
        SegmentType::Start => None,
        SegmentType::AccountTrie => if prev matches Some(p) && cur.depth != p.depth + 1 {
            Some(ConstraintKind::Depth)
        } else {
            None
        },
        SegmentType::AccountLeaf4 | SegmentType::StorageTrie | SegmentType::StorageLeaf0
        | SegmentType::StorageLeaf1 => Some(ConstraintKind::Unreachable),
        _ => if cur.path_type != PathType::Common {
            Some(ConstraintKind::LeafPathNotCommon)
        } else if cur.depth != 0 {
            Some(ConstraintKind::Depth)
        } else if cur.direction {
            Some(ConstraintKind::LeafDirection)
        } else if cur.segment_type == SegmentType::AccountLeaf3 && !(nonce_packed(
            cur.old_hash,
            cur.old_value_rlc,
        ) && nonce_packed(cur.new_hash, cur.new_value_rlc)) {
            Some(ConstraintKind::NonceWidth)
        } else {
            None
        },
    }
}

/// Whether a row in the account or the storage trie goes in a direction
/// other than bit `depth` of its key.
pub open spec fn key_bit_violation(cur: MptRow) -> bool {
    (cur.segment_type == SegmentType::AccountTrie || cur.segment_type == SegmentType::StorageTrie)
        && cur.direction != spec_bit(cur.path_key, cur.depth as int)
}

/// Whether the hash of the parent, held on the previous row, is not what
/// this row's node combines to with its sibling, in the row's direction: on
/// both sides for a `Common` row, on the side that goes on for an extension.
pub open spec fn hash_step_violation<H: Fn(Fr, Fr) -> Fr>(prev: MptRow, cur: MptRow, h: H) -> bool {
    let old_ok = prev.old_hash == combine(h, cur.direction, cur.sibling, cur.old_hash);
    let new_ok = prev.new_hash == combine(h, cur.direction, cur.sibling, cur.new_hash);
    match cur.path_type {
        PathType::Common => !(old_ok && new_ok),
        PathType::ExtensionOld => !old_ok,
        PathType::ExtensionNew => !new_ok,
        PathType::Start => false,
    }
}

/// Whether `cur` continues the update of the row before it: it has one, and
/// is not the `Start` row that opens a new update.
pub open spec fn continues(prev: Option<MptRow>, cur: MptRow) -> bool {
    prev is Some && cur.segment_type != SegmentType::Start
}

/// The first constraint that the row `cur` breaks after the row `prev`
/// (none before the table's first row), checked in a fixed order; `None`
/// where it meets them all. An inactive row is bound by nothing. The first
/// row of an update, its `Start` row, is not held to the transitions or the
/// hash step from the row before it, which belongs to another update.
pub open spec fn row_violation<H: Fn(Fr, Fr) -> Fr>(prev: Option<MptRow>, cur: MptRow, h: H) -> Option<ConstraintKind> {
    if !cur.selector {
        None
    } else if is_unsupported(cur.proof_type) {
        Some(ConstraintKind::UnsupportedProofType)
    } else if continues(prev, cur) && !segment_may_follow(prev->0.segment_type, cur.segment_type) {
        Some(ConstraintKind::SegmentTransition)
    } else if continues(prev, cur) && !path_may_follow(prev->0.path_type, cur.path_type) {
        Some(ConstraintKind::PathTransition)
    } else if !depth_ok(prev, cur) {
        Some(ConstraintKind::Depth)
    } else if key_bit_violation(cur) {
        Some(ConstraintKind::KeyBit)
    } else if path_violation(prev, cur) is Some {
        path_violation(prev, cur)
    } else if continues(prev, cur) && hash_step_violation(prev->0, cur, h) {
        Some(ConstraintKind::HashStep)
    } else if cur.proof_type == MPTProofType::NonceChanged {
        nonce_violation(prev, cur)
    } else {
        None
    }
}

/// The row before offset `i`, if any.
pub open spec fn prev_row(rows: Seq<MptRow>, i: int) -> Option<MptRow> {
    if i == 0 { None } else { Some(rows[i - 1]) }
}

/// Whether every row of the table meets the constraints.
pub open spec fn table_ok<H: Fn(Fr, Fr) -> Fr>(rows: Seq<MptRow>, h: H) -> bool {
    forall|i: int| 0 <= i < rows.len() ==> #[trigger] row_violation(prev_row(rows, i), rows[i], h) is None
}

fn fr_is_zero(f: Fr) -> (r: bool)
    ensures
        r == is_zero(f),
{
    f.0 == 0 && f.1 == 0 && f.2 == 0 && f.3 == 0
}

fn is_nonce_packed(hash_input: Fr, nonce: Fr) -> (r: bool)
    ensures
        r == nonce_packed(hash_input, nonce),
{
    nonce.1 == 0 && nonce.2 == 0 && nonce.3 == 0 && hash_input.2 == 0 && hash_input.3 == 0
        && hash_input.0 == nonce.0
}

fn follows_by_one(prev: &MptRow, cur: &MptRow) -> (r: bool)
    ensures
        r == (cur.depth == prev.depth + 1),
{
    prev.depth < u64::MAX && cur.depth == prev.depth + 1
}

fn check_depth(prev: Option<&MptRow>, cur: &MptRow) -> (r: bool)
    ensures
        r == depth_ok(
            match prev {
                Some(p) => Some(*p),
                None => None,
            },
            *cur,
        ),
{
    let at_zero = match cur.segment_type {
        SegmentType::AccountTrie | SegmentType::StorageTrie => false,
        _ => true,
    };
    if at_zero && cur.depth != 0 {
        return false;
    }
    match prev {
        Some(p) => {
            if !at_zero && p.segment_type == cur.segment_type {
                follows_by_one(p, cur)
            } else {
                true
            }
        },
        None => true,
    }
}

fn check_path(prev: Option<&MptRow>, cur: &MptRow) -> (r: Option<ConstraintKind>)
    ensures
        r == path_violation(
            match prev {
                Some(p) => Some(*p),
                None => None,
            },
            *cur,
        ),
{
    match cur.path_type {
        PathType::ExtensionOld => {
            if !fr_is_zero(cur.sibling) {
                Some(ConstraintKind::ExtensionSibling)
            } else {
                match prev {
                    Some(p) => if cur.new_hash != p.new_hash {
                        Some(ConstraintKind::FrozenHash)
                    } else {
                        None
                    },
                    None => None,
                }
            }
        },
        PathType::ExtensionNew => {
            let frozen_broken = match prev {
                Some(p) => cur.old_hash != p.old_hash,
                None => false,
            };
            if frozen_broken {
                Some(ConstraintKind::FrozenHash)
            } else if !fr_is_zero(cur.sibling) {
                Some(ConstraintKind::ExtensionSibling)
            } else {
                None
            }
        },
        _ => None,
    }
}

fn check_nonce(prev: Option<&MptRow>, cur: &MptRow) -> (r: Option<ConstraintKind>)
    ensures
        r == nonce_violation(
            match prev {
                Some(p) => Some(*p),
                None => None,
            },
            *cur,
        ),
{
    match cur.segment_type {
        SegmentType::Start => None,
        SegmentType::AccountTrie => match prev {
            Some(p) => if !follows_by_one(p, cur) {
                Some(ConstraintKind::Depth)
            } else {
                None
            },
            None => None,
        },
        SegmentType::AccountLeaf4 | SegmentType::StorageTrie | SegmentType::StorageLeaf0
        | SegmentType::StorageLeaf1 => Some(ConstraintKind::Unreachable),
        _ => {
            if cur.path_type != PathType::Common {
                Some(ConstraintKind::LeafPathNotCommon)
            } else if cur.depth != 0 {
                Some(ConstraintKind::Depth)
            } else if cur.direction {
                Some(ConstraintKind::LeafDirection)
            } else if cur.segment_type == SegmentType::AccountLeaf3 && !(is_nonce_packed(
                cur.old_hash,
                cur.old_value_rlc,
            ) && is_nonce_packed(cur.new_hash, cur.new_value_rlc)) {
                Some(ConstraintKind::NonceWidth)
            } else {
                None
            }
        },
    }
}

fn check_key_bit(cur: &MptRow) -> (r: bool)
    ensures
        r == key_bit_violation(*cur),
{
    match cur.segment_type {
        SegmentType::AccountTrie | SegmentType::StorageTrie => {
            let bit = if cur.depth >= 256 {
                false
            } else {
                cur.path_key.bit(cur.depth as usize)
            };
            cur.direction != bit
        },
        _ => false,
    }
}

/// The hash of a parent whose child at `direction` is `child`.
fn combine_exec<H: Fn(Fr, Fr) -> Fr>(hash: &H, direction: bool, sibling: Fr, child: Fr) -> (r: Fr)
    requires
        is_hash_fn(*hash),
    ensures
        r == combine(*hash, direction, sibling, child),
{
    if direction {
        hash_pair(hash, sibling, child)
    } else {
        hash_pair(hash, child, sibling)
    }
}

fn check_hash_step<H: Fn(Fr, Fr) -> Fr>(prev: &MptRow, cur: &MptRow, hash: &H) -> (r: bool)
    requires
        is_hash_fn(*hash),
    ensures
        r == hash_step_violation(*prev, *cur, *hash),
{
    match cur.path_type {
        PathType::Common => {
            let old_ok = prev.old_hash == combine_exec(hash, cur.direction, cur.sibling, cur.old_hash);
            let new_ok = prev.new_hash == combine_exec(hash, cur.direction, cur.sibling, cur.new_hash);
            !(old_ok && new_ok)
        },
        PathType::ExtensionOld => prev.old_hash != combine_exec(hash, cur.direction, cur.sibling, cur.old_hash),
        PathType::ExtensionNew => prev.new_hash != combine_exec(hash, cur.direction, cur.sibling, cur.new_hash),
        PathType::Start => false,
    }
}

/// The first constraint that `cur` breaks after `prev` (`None` for the
/// table's first row), or `None` where it meets them all.
pub fn check_row<H: Fn(Fr, Fr) -> Fr>(prev: Option<&MptRow>, cur: &MptRow, hash: &H) -> (r: Option<ConstraintKind>)
    requires
        is_hash_fn(*hash),
    ensures
        r == row_violation(
            match prev {
                Some(p) => Some(*p),
                None => None,
            },
            *cur,
            *hash,
        ),
{
    if !cur.selector {
        return None;
    }
    if !cur.proof_type.is_supported() {
        return Some(ConstraintKind::UnsupportedProofType);
    }
    let opens = matches!(cur.segment_type, SegmentType::Start);
    if let Some(p) = prev {
        if !opens && !segment_transition_allowed(p.segment_type, cur.segment_type) {
            return Some(ConstraintKind::SegmentTransition);
        }
        if !opens && !path_transition_allowed(p.path_type, cur.path_type) {
            return Some(ConstraintKind::PathTransition);
        }
    }
    if !check_depth(prev, cur) {
        return Some(ConstraintKind::Depth);
    }
    if check_key_bit(cur) {
        return Some(ConstraintKind::KeyBit);
    }
    let path = check_path(prev, cur);
    if path.is_some() {
        return path;
    }
    if let Some(p) = prev {
        if !opens && check_hash_step(p, cur, hash) {
            return Some(ConstraintKind::HashStep);
        }
    }
    if let MPTProofType::NonceChanged = cur.proof_type {
        check_nonce(prev, cur)
    } else {
        None
    }
}

/// Checks every row of the table against the constraints, the first against
/// no previous row; reports the first row that breaks one.
pub fn check_rows<H: Fn(Fr, Fr) -> Fr>(rows: &[MptRow], hash: &H) -> (r: Result<(), RowError>)
    requires
        is_hash_fn(*hash),
    ensures
        r is Ok <==> table_ok(rows@, *hash),
        r matches Err(e) ==> {
            &&& e.offset < rows@.len()
            &&& row_violation(prev_row(rows@, e.offset as int), rows@[e.offset as int], *hash) == Some(e.kind)
            &&& forall|i: int| 0 <= i < e.offset ==> #[trigger] row_violation(prev_row(rows@, i), rows@[i], *hash) is None
        },
{
    let mut i: usize = 0;
    while i < rows.len()
        invariant
            0 <= i <= rows@.len(),
            is_hash_fn(*hash),
            forall|j: int| 0 <= j < i ==> #[trigger] row_violation(prev_row(rows@, j), rows@[j], *hash) is None,
        decreases rows@.len() - i,
    {
        let prev = if i == 0 { None } else { Some(&rows[i - 1]) };
        if let Some(kind) = check_row(prev, &rows[i], hash) {
            return Err(RowError { offset: i, kind });
        }
        i = i + 1;
    }
    Ok(())
}

/// In a table that meets the constraints, every active row has depth 0 at
/// `Start` and in the leaf segments, and one more than the previous row's
/// where both lie in the account trie or both in the storage trie.
pub proof fn lemma_depth_monotone<H: Fn(Fr, Fr) -> Fr>(rows: Seq<MptRow>, h: H)
    requires
        table_ok(rows, h),
    ensures
        forall|i: int|
            0 <= i < rows.len() && (#[trigger] rows[i]).selector && (rows[i].segment_type == SegmentType::Start
                || is_leaf_segment(rows[i].segment_type)) ==> rows[i].depth == 0,
        forall|i: int|
            0 < i < rows.len() && (#[trigger] rows[i]).selector && rows[i].segment_type == rows[i
                - 1].segment_type && (rows[i].segment_type == SegmentType::AccountTrie
                || rows[i].segment_type == SegmentType::StorageTrie) ==> rows[i].depth == rows[i
                - 1].depth + 1,
{
    assert forall|i: int| 0 <= i < rows.len() && (#[trigger] rows[i]).selector implies depth_ok(prev_row(rows, i), rows[i]) by {
        assert(row_violation(prev_row(rows, i), rows[i], h) is None);
    }
}

/// In a table that meets the constraints, every active row that continues
/// an update (all but the first row of the table and the `Start` row that
/// opens each update) has a segment type and a path type that the backward
/// transitions allow after the previous row's, and no active row has an
/// unsupported proof type.
pub proof fn lemma_backward_transitions<H: Fn(Fr, Fr) -> Fr>(rows: Seq<MptRow>, h: H)
    requires
        table_ok(rows, h),
    ensures
        forall|i: int|
            0 < i < rows.len() && (#[trigger] rows[i]).selector && rows[i].segment_type != SegmentType::Start
                ==> segment_may_follow(rows[i - 1].segment_type, rows[i].segment_type) && path_may_follow(
                rows[i - 1].path_type,
                rows[i].path_type,
            ),
        forall|i: int| 0 <= i < rows.len() && (#[trigger] rows[i]).selector ==> !is_unsupported(rows[i].proof_type),
{
    assert forall|i: int| 0 <= i < rows.len() && (#[trigger] rows[i]).selector implies row_violation(prev_row(rows, i), rows[i], h) is None by {
    }
}

/// In a table that meets the constraints, every active row that continues an
/// update holds a node whose hash with its sibling, in the row's direction,
/// is the previous row's hash (on both sides for `Common`, on the side that
/// goes on for an extension); and every active row of the account or the
/// storage trie goes in the direction of its key's bit at its depth.
pub proof fn lemma_hash_steps<H: Fn(Fr, Fr) -> Fr>(rows: Seq<MptRow>, h: H)
    requires
        table_ok(rows, h),
    ensures
        forall|i: int|
            0 < i < rows.len() && (#[trigger] rows[i]).selector && rows[i].segment_type != SegmentType::Start
                ==> !hash_step_violation(rows[i - 1], rows[i], h),
        forall|i: int|
            0 <= i < rows.len() && (#[trigger] rows[i]).selector && (rows[i].segment_type == SegmentType::AccountTrie
                || rows[i].segment_type == SegmentType::StorageTrie) ==> rows[i].direction == spec_bit(
                rows[i].path_key,
                rows[i].depth as int,
            ),
{
    assert forall|i: int| 0 <= i < rows.len() && (#[trigger] rows[i]).selector implies row_violation(prev_row(rows, i), rows[i], h) is None by {
    }
}

/// The claim that other circuits look up at a row:
/// `(old_root, new_root, old_value_rlc, new_value_rlc, proof_type, address,
/// storage_key_rlc)`. The roots and values are read at `Start` rows only (zero
/// elsewhere), and there the old and the new value are exchanged. The proof
/// type is given by its index among all proof types.
pub open spec fn spec_lookup(row: MptRow) -> Seq<Fr> {
    let is_root = row.segment_type == SegmentType::Start;
    let zero = Fr(0, 0, 0, 0);
    seq![
        if is_root { row.old_hash } else { zero },
        if is_root { row.new_hash } else { zero },
        if is_root { row.new_value_rlc } else { zero },
        if is_root { row.old_value_rlc } else { zero },
        Fr(proof_type_index(row.proof_type), 0, 0, 0),
        row.address,
        row.storage_key_rlc,
    ]
}

/// The interface through which other circuits look up a state claim.
pub trait MptUpdateLookup {
    spec fn spec_claim(&self) -> Seq<Fr>;

    /// The seven values that other circuits look up here.
    fn lookup(&self) -> (r: [Fr; 7])
        ensures
            r@ == self.spec_claim(),
    ;
}

impl MptUpdateLookup for MptRow {
    open spec fn spec_claim(&self) -> Seq<Fr> {
        spec_lookup(*self)
    }

    fn lookup(&self) -> (r: [Fr; 7]) {
        let is_root = matches!(self.segment_type, SegmentType::Start);
        let zero = Fr::zero();
        let r = [
            if is_root { self.old_hash } else { zero },
            if is_root { self.new_hash } else { zero },
            if is_root { self.new_value_rlc } else { zero },
            if is_root { self.old_value_rlc } else { zero },
            Fr(self.proof_type.index(), 0, 0, 0),
            self.address,
            self.storage_key_rlc,
        ];
        assert(r@ =~= spec_lookup(*self));
        r
    }
}

/// One step of an update's walk as the witness records it.
#[derive(Clone, Copy, Debug, PartialEq, Eq, Structural)]
pub struct HashTrace {
    pub direction: bool,
    pub old_hash: Fr,
    pub new_hash: Fr,
    pub sibling: Fr,
    /// Only the new path reaches this step.
    pub is_padding_open: bool,
    /// Only the old path reaches this step.
    pub is_padding_close: bool,
}

/// One update as the witness records it: the claim's type and address, and
/// the steps of its walk, from the root down.
#[derive(Clone, Debug)]
pub struct UpdateTrace {
    pub proof_type: MPTProofType,
    pub address: [u8; 20],
    pub hash_traces: Vec<HashTrace>,
}

/// Why updates could not be laid out as rows.
#[derive(Clone, Copy, Debug, PartialEq, Eq, Structural)]
pub enum AssignError {
    /// A step is marked as reached by neither path.
    BothPaddings { update: usize, step: usize },
}

/// The path type of a step: `Common` where both paths reach it,
/// `ExtensionOld` where only the old one does, `ExtensionNew` where only the
/// new one does.
pub open spec fn step_path_type(t: HashTrace) -> PathType {
    if t.is_padding_open {
        PathType::ExtensionNew
    } else if t.is_padding_close {
        PathType::ExtensionOld
    } else {
        PathType::Common
    }
}

pub open spec fn step_ok(t: HashTrace) -> bool {
    !(t.is_padding_open && t.is_padding_close)
}

pub open spec fn update_ok(u: UpdateTrace) -> bool {
    forall|k: int| 0 <= k < u.hash_traces@.len() ==> step_ok(#[trigger] u.hash_traces@[k])
}

/// The row that a step of an update is laid out as: active, in the account
/// trie at `depth`, with the step's hashes, sibling and direction; what the
/// step does not give stays zero.
pub open spec fn assigned_row(proof_type: MPTProofType, address: Fr, depth: u64, t: HashTrace) -> MptRow {
    let zero = Fr(0, 0, 0, 0);
    MptRow {
        selector: true,
        old_hash: t.old_hash,
        new_hash: t.new_hash,
        proof_key: zero,
        old_value_rlc: zero,
        new_value_rlc: zero,
        proof_type,
        address,
        storage_key_rlc: zero,
        segment_type: SegmentType::AccountTrie,
        path_type: step_path_type(t),
        depth,
        path_key: zero,
        direction: t.direction,
        sibling: t.sibling,
    }
}

/// The rows of one update, one per step, in order: step `k` lies at depth
/// `k + 1`, below the update's root at depth 0.
pub open spec fn update_rows(u: UpdateTrace) -> Seq<MptRow> {
    Seq::new(
        u.hash_traces@.len(),
        |k: int| assigned_row(u.proof_type, spec_address_to_fr(u.address@), (k + 1) as u64, u.hash_traces@[k]),
    )
}

/// The rows of all updates, packed one after the other.
pub open spec fn updates_rows(us: Seq<UpdateTrace>) -> Seq<MptRow>
    decreases us.len(),
{
    if us.len() == 0 {
        seq![]
    } else {
        updates_rows(us.drop_last()) + update_rows(us.last())
    }
}

fn step_row(proof_type: MPTProofType, address: Fr, depth: u64, t: &HashTrace) -> (r: Result<MptRow, ()>)
    ensures
        r is Ok <==> step_ok(*t),
        r matches Ok(row) ==> row == assigned_row(proof_type, address, depth, *t),
{
    let path_type = match (t.is_padding_open, t.is_padding_close) {
        (false, false) => PathType::Common,
        (false, true) => PathType::ExtensionOld,
        (true, false) => PathType::ExtensionNew,
        (true, true) => {
            return Err(());
        },
    };
    let zero = Fr::zero();
    Ok(
        MptRow {
            selector: true,
            old_hash: t.old_hash,
            new_hash: t.new_hash,
            proof_key: zero,
            old_value_rlc: zero,
            new_value_rlc: zero,
            proof_type,
            address,
            storage_key_rlc: zero,
            segment_type: SegmentType::AccountTrie,
            path_type,
            depth,
            path_key: zero,
            direction: t.direction,
            sibling: t.sibling,
        },
    )
}

/// Lays the updates out as rows after those already in `table`, one row per
/// step, so that the table's length is the offset at which the next update
/// starts. Fails, leaving the table as it was, at the first step that is
/// marked as reached by neither path.
pub fn assign(table: &mut Vec<MptRow>, updates: &[UpdateTrace]) -> (r: Result<(), AssignError>)
    ensures
        r is Ok <==> forall|u: int| 0 <= u < updates@.len() ==> update_ok(#[trigger] updates@[u]),
        r is Ok ==> final(table)@ == old(table)@ + updates_rows(updates@),
        r is Err ==> final(table)@ == old(table)@,
        r matches Err(AssignError::BothPaddings { update, step }) ==> {
            &&& update < updates@.len()
            &&& step < updates@[update as int].hash_traces@.len()
            &&& !step_ok(updates@[update as int].hash_traces@[step as int])
            &&& forall|u: int| 0 <= u < update ==> update_ok(#[trigger] updates@[u])
            &&& forall|k: int| 0 <= k < step ==> step_ok(#[trigger] updates@[update as int].hash_traces@[k])
        },
{
    let mut rows: Vec<MptRow> = Vec::new();
    let mut u: usize = 0;
    while u < updates.len()
        invariant
            0 <= u <= updates@.len(),
            table@ == old(table)@,
            rows@ == updates_rows(updates@.take(u as int)),
            forall|v: int| 0 <= v < u ==> update_ok(#[trigger] updates@[v]),
        decreases updates@.len() - u,
    {
        let update = &updates[u];
        let address = address_to_fr(update.address);
        let ghost before = rows@;
        let mut k: usize = 0;
        while k < update.hash_traces.len()
            invariant
                0 <= u < updates@.len(),
                *update == updates@[u as int],
                address == spec_address_to_fr(update.address@),
                0 <= k <= update.hash_traces@.len(),
                table@ == old(table)@,
                before == updates_rows(updates@.take(u as int)),
                forall|v: int| 0 <= v < u ==> update_ok(#[trigger] updates@[v]),
                rows@ == before + update_rows(*update).take(k as int),
                forall|j: int| 0 <= j < k ==> step_ok(#[trigger] update.hash_traces@[j]),
            decreases update.hash_traces@.len() - k,
        {
            let depth = k as u64 + 1;
            match step_row(update.proof_type, address, depth, &update.hash_traces[k]) {
                Ok(row) => {
                    rows.push(row);
                },
                Err(()) => {
                    return Err(AssignError::BothPaddings { update: u, step: k });
                },
            }
            assert(update_rows(*update).take(k + 1) =~= update_rows(*update).take(k as int).push(
                update_rows(*update)[k as int],
            ));
            k = k + 1;
        }
        assert(update_rows(*update).take(k as int) =~= update_rows(*update));
        assert(updates@.take(u + 1).drop_last() =~= updates@.take(u as int));
        u = u + 1;
    }
    assert(updates@.take(u as int) =~= updates@);
    table.append(&mut rows);
    Ok(())
}

} // verus!
