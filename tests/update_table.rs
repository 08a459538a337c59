use mpt_circuits::field::Fr;
use mpt_circuits::mpt_update::{
    assign, check_row, check_rows, AssignError, ConstraintKind, HashTrace, MptRow,
    MptUpdateLookup, RowError, UpdateTrace,
};
use mpt_circuits::path::PathType;
use mpt_circuits::proof_type::MPTProofType;
use mpt_circuits::segment::SegmentType;

fn fr(x: u64) -> Fr {
    Fr(x, 0, 0, 0)
}

fn toy_hash(a: Fr, b: Fr) -> Fr {
    Fr(
        a.0.wrapping_mul(6364136223846793005)
            .wrapping_add(b.0.rotate_left(17))
            .wrapping_add(1),
        a.1 ^ b.1.rotate_left(3),
        a.2.wrapping_add(b.2).wrapping_add(5),
        a.3 ^ b.3 ^ 0xdead,
    )
}

fn combine(direction: bool, sibling: Fr, child: Fr) -> Fr {
    if direction {
        toy_hash(sibling, child)
    } else {
        toy_hash(child, sibling)
    }
}

fn base(segment_type: SegmentType, path_type: PathType, depth: u64) -> MptRow {
    MptRow {
        selector: true,
        old_hash: fr(0),
        new_hash: fr(0),
        proof_key: fr(0),
        old_value_rlc: fr(0),
        new_value_rlc: fr(0),
        proof_type: MPTProofType::NonceChanged,
        address: fr(0),
        storage_key_rlc: fr(0),
        segment_type,
        path_type,
        depth,
        path_key: fr(0),
        direction: false,
        sibling: fr(0),
    }
}

/// Sets each row's hashes, from the bottom up, to those of its parent.
fn rehash(rows: &mut [MptRow]) {
    for i in (1..rows.len()).rev() {
        let cur = rows[i];
        rows[i - 1].old_hash = combine(cur.direction, cur.sibling, cur.old_hash);
        rows[i - 1].new_hash = combine(cur.direction, cur.sibling, cur.new_hash);
    }
}

/// A nonce update over a 3-level account trie of equal depth on both sides.
fn nonce_table() -> Vec<MptRow> {
    let mut rows = vec![
        base(SegmentType::Start, PathType::Start, 0),
        base(SegmentType::AccountTrie, PathType::Common, 1),
        base(SegmentType::AccountTrie, PathType::Common, 2),
        base(SegmentType::AccountTrie, PathType::Common, 3),
        base(SegmentType::AccountLeaf0, PathType::Common, 0),
        base(SegmentType::AccountLeaf1, PathType::Common, 0),
        base(SegmentType::AccountLeaf2, PathType::Common, 0),
        base(SegmentType::AccountLeaf3, PathType::Common, 0),
    ];
    // Key bits 1, 2 and 3 are 1, 0 and 1.
    let key = fr(0b1010);
    for (i, row) in rows.iter_mut().enumerate() {
        row.path_key = key;
        if i > 0 {
            row.sibling = fr(100 + i as u64);
        }
    }
    rows[1].direction = true;
    rows[3].direction = true;
    // nonce 5 -> 6, code size 9, packed as nonce + code size * 2^64.
    rows[7].old_hash = Fr(5, 9, 0, 0);
    rows[7].old_value_rlc = fr(5);
    rows[7].new_hash = Fr(6, 9, 0, 0);
    rows[7].new_value_rlc = fr(6);
    rehash(&mut rows);
    rows
}

#[test]
fn nonce_table_meets_constraints() {
    let rows = nonce_table();
    assert_eq!(check_rows(&rows, &toy_hash), Ok(()));
    assert_ne!(rows[0].old_hash, rows[0].new_hash);
}

#[test]
fn nonce_wider_than_eight_bytes_fails() {
    let mut rows = nonce_table();
    rows[7].old_value_rlc = Fr(5, 1, 0, 0);
    assert_eq!(
        check_rows(&rows, &toy_hash),
        Err(RowError { offset: 7, kind: ConstraintKind::NonceWidth })
    );
    let mut rows = nonce_table();
    rows[7].new_hash = Fr(6, 9, 1, 0);
    rehash(&mut rows);
    assert_eq!(
        check_rows(&rows, &toy_hash),
        Err(RowError { offset: 7, kind: ConstraintKind::NonceWidth })
    );
    let mut rows = nonce_table();
    rows[7].new_value_rlc = fr(7);
    assert_eq!(
        check_rows(&rows, &toy_hash),
        Err(RowError { offset: 7, kind: ConstraintKind::NonceWidth })
    );
}

#[test]
fn depth_must_grow_in_trie() {
    let mut rows = nonce_table();
    rows[2].depth = 5;
    assert_eq!(check_rows(&rows, &toy_hash), Err(RowError { offset: 2, kind: ConstraintKind::Depth }));
    let mut rows = nonce_table();
    rows[5].depth = 1;
    assert_eq!(check_rows(&rows, &toy_hash), Err(RowError { offset: 5, kind: ConstraintKind::Depth }));
    let mut rows = nonce_table();
    rows[0].depth = 1;
    assert_eq!(check_rows(&rows, &toy_hash), Err(RowError { offset: 0, kind: ConstraintKind::Depth }));
}

#[test]
fn transitions_are_checked() {
    let mut rows = nonce_table();
    rows.swap(5, 6);
    assert_eq!(
        check_rows(&rows, &toy_hash),
        Err(RowError { offset: 5, kind: ConstraintKind::SegmentTransition })
    );
    let prev = base(SegmentType::AccountTrie, PathType::ExtensionOld, 1);
    let cur = base(SegmentType::AccountTrie, PathType::Common, 2);
    assert_eq!(check_row(Some(&prev), &cur, &toy_hash), Some(ConstraintKind::PathTransition));
}

#[test]
fn first_row_of_update_is_exempt() {
    let leaf0 = base(SegmentType::AccountLeaf0, PathType::ExtensionOld, 0);
    let start = base(SegmentType::Start, PathType::Common, 0);
    assert_eq!(check_row(Some(&leaf0), &start, &toy_hash), None);
    let mut two = nonce_table();
    two.extend(nonce_table());
    assert_eq!(check_rows(&two, &toy_hash), Ok(()));
}

#[test]
fn direction_must_match_key_bit() {
    let mut rows = nonce_table();
    rows[2].direction = true;
    rehash(&mut rows);
    assert_eq!(check_rows(&rows, &toy_hash), Err(RowError { offset: 2, kind: ConstraintKind::KeyBit }));
    let mut row = base(SegmentType::AccountTrie, PathType::Common, 1);
    row.direction = true;
    assert_eq!(check_row(None, &row, &toy_hash), Some(ConstraintKind::KeyBit));
    row.path_key = fr(2);
    assert_eq!(check_row(None, &row, &toy_hash), None);
}

#[test]
fn hash_step_is_checked() {
    let mut rows = nonce_table();
    rows[3].old_hash = fr(12345);
    assert_eq!(check_rows(&rows, &toy_hash), Err(RowError { offset: 3, kind: ConstraintKind::HashStep }));
    let mut rows = nonce_table();
    rows[6].new_hash = fr(1);
    assert_eq!(check_rows(&rows, &toy_hash), Err(RowError { offset: 6, kind: ConstraintKind::HashStep }));
}

#[test]
fn inactive_rows_are_free() {
    let mut rows = nonce_table();
    rows[3].selector = false;
    rows[3].depth = 40;
    rows[3].segment_type = SegmentType::StorageLeaf1;
    // The next row is still held to the transition from the inactive one.
    assert_eq!(
        check_rows(&rows, &toy_hash),
        Err(RowError { offset: 4, kind: ConstraintKind::SegmentTransition })
    );
    assert_eq!(check_row(Some(&rows[2]), &rows[3], &toy_hash), None);
}

#[test]
fn leaf_rows_of_nonce_update() {
    let mut rows = nonce_table();
    rows[5].direction = true;
    rehash(&mut rows);
    assert_eq!(
        check_rows(&rows, &toy_hash),
        Err(RowError { offset: 5, kind: ConstraintKind::LeafDirection })
    );
    let mut prev = base(SegmentType::AccountTrie, PathType::Common, 3);
    let cur = base(SegmentType::AccountLeaf0, PathType::ExtensionNew, 0);
    prev.new_hash = combine(cur.direction, cur.sibling, cur.new_hash);
    assert_eq!(check_row(Some(&prev), &cur, &toy_hash), Some(ConstraintKind::LeafPathNotCommon));
    let mut prev = base(SegmentType::AccountLeaf3, PathType::Common, 0);
    let cur = base(SegmentType::AccountLeaf4, PathType::Common, 0);
    prev.old_hash = combine(cur.direction, cur.sibling, cur.old_hash);
    prev.new_hash = combine(cur.direction, cur.sibling, cur.new_hash);
    assert_eq!(check_row(Some(&prev), &cur, &toy_hash), Some(ConstraintKind::Unreachable));
}

#[test]
fn extension_rows() {
    let mut prev = base(SegmentType::AccountTrie, PathType::Common, 1);
    prev.proof_type = MPTProofType::BalanceChanged;
    prev.new_hash = fr(4);
    prev.old_hash = toy_hash(fr(8), fr(0));
    let mut cur = prev;
    cur.depth = 2;
    cur.path_type = PathType::ExtensionOld;
    cur.old_hash = fr(8);
    assert_eq!(check_row(Some(&prev), &cur, &toy_hash), None);
    cur.sibling = fr(1);
    assert_eq!(check_row(Some(&prev), &cur, &toy_hash), Some(ConstraintKind::ExtensionSibling));
    cur.sibling = fr(0);
    cur.new_hash = fr(5);
    assert_eq!(check_row(Some(&prev), &cur, &toy_hash), Some(ConstraintKind::FrozenHash));
    cur.new_hash = fr(4);
    cur.old_hash = fr(9);
    assert_eq!(check_row(Some(&prev), &cur, &toy_hash), Some(ConstraintKind::HashStep));

    let mut prev = base(SegmentType::AccountTrie, PathType::Common, 1);
    prev.old_hash = fr(8);
    prev.new_hash = toy_hash(fr(99), fr(0));
    let mut cur = prev;
    cur.depth = 2;
    cur.path_type = PathType::ExtensionNew;
    cur.new_hash = fr(99);
    assert_eq!(check_row(Some(&prev), &cur, &toy_hash), None);
    cur.new_hash = fr(98);
    assert_eq!(check_row(Some(&prev), &cur, &toy_hash), Some(ConstraintKind::HashStep));
    cur.new_hash = fr(99);
    cur.old_hash = fr(9);
    assert_eq!(check_row(Some(&prev), &cur, &toy_hash), Some(ConstraintKind::FrozenHash));
}

#[test]
fn unsupported_proof_types_fail() {
    let mut row = base(SegmentType::Start, PathType::Start, 0);
    row.proof_type = MPTProofType::CodeSizeExists;
    assert_eq!(
        check_rows(&[row], &toy_hash),
        Err(RowError { offset: 0, kind: ConstraintKind::UnsupportedProofType })
    );
    row.proof_type = MPTProofType::PoseidonCodeHashExists;
    assert_eq!(check_row(None, &row, &toy_hash), Some(ConstraintKind::UnsupportedProofType));
    row.selector = false;
    assert_eq!(check_row(None, &row, &toy_hash), None);
}

#[test]
fn lookup_reads_roots_at_start() {
    let mut row = base(SegmentType::Start, PathType::Start, 0);
    row.old_hash = fr(1);
    row.new_hash = fr(2);
    row.old_value_rlc = fr(3);
    row.new_value_rlc = fr(4);
    row.address = fr(5);
    row.storage_key_rlc = fr(6);
    assert_eq!(row.lookup(), [fr(1), fr(2), fr(4), fr(3), fr(0), fr(5), fr(6)]);
    row.proof_type = MPTProofType::StorageChanged;
    assert_eq!(row.lookup()[4], fr(5));
    row.segment_type = SegmentType::AccountTrie;
    assert_eq!(row.lookup(), [fr(0), fr(0), fr(0), fr(0), fr(5), fr(5), fr(6)]);
    let indices: Vec<u64> = MPTProofType::all().iter().map(|p| p.index()).collect();
    assert_eq!(indices, vec![0, 1, 2, 3, 4, 5, 6, 7, 8]);
}

fn step(open: bool, close: bool, x: u64) -> HashTrace {
    HashTrace {
        direction: x % 2 == 1,
        old_hash: fr(x),
        new_hash: fr(x + 100),
        sibling: fr(x + 200),
        is_padding_open: open,
        is_padding_close: close,
    }
}

#[test]
fn assign_packs_updates() {
    let mut address = [0u8; 20];
    address[19] = 7;
    let updates = vec![
        UpdateTrace {
            proof_type: MPTProofType::NonceChanged,
            address,
            hash_traces: vec![step(false, false, 1), step(false, true, 2)],
        },
        UpdateTrace {
            proof_type: MPTProofType::BalanceChanged,
            address,
            hash_traces: vec![step(true, false, 3)],
        },
    ];
    let mut table = vec![base(SegmentType::Start, PathType::Start, 0)];
    assert_eq!(assign(&mut table, &updates), Ok(()));
    assert_eq!(table.len(), 4);
    assert_eq!(table[1].path_type, PathType::Common);
    assert_eq!(table[2].path_type, PathType::ExtensionOld);
    assert_eq!(table[3].path_type, PathType::ExtensionNew);
    assert_eq!(table[3].proof_type, MPTProofType::BalanceChanged);
    assert_eq!(table[2].old_hash, fr(2));
    assert_eq!(table[2].new_hash, fr(102));
    assert_eq!(table[2].sibling, fr(202));
    assert!(table[1].direction);
    assert!(!table[2].direction);
    assert_eq!(table[1].address, fr(7));
    assert_eq!(table[1].segment_type, SegmentType::AccountTrie);
    assert!(table[3].selector);
    assert_eq!(table[1].depth, 1);
    assert_eq!(table[2].depth, 2);
    assert_eq!(table[3].depth, 1);
}

#[test]
fn assign_refuses_step_on_neither_path() {
    let updates = vec![
        UpdateTrace {
            proof_type: MPTProofType::NonceChanged,
            address: [1u8; 20],
            hash_traces: vec![step(false, false, 1)],
        },
        UpdateTrace {
            proof_type: MPTProofType::NonceChanged,
            address: [1u8; 20],
            hash_traces: vec![step(false, false, 1), step(true, true, 2)],
        },
    ];
    let mut table = Vec::new();
    assert_eq!(
        assign(&mut table, &updates),
        Err(AssignError::BothPaddings { update: 1, step: 1 })
    );
    assert!(table.is_empty());
}
