use mpt_circuits::field::{address_to_fr, Fr};
use mpt_circuits::path::{self, path_transition_allowed, PathType};
use mpt_circuits::proof_type::MPTProofType;
use mpt_circuits::segment::{self, segment_transition_allowed, SegmentType};

#[test]
fn bits_are_little_endian() {
    let f = Fr(0b1010, 1, 0, 1u64 << 63);
    assert!(!f.bit(0));
    assert!(f.bit(1));
    assert!(!f.bit(2));
    assert!(f.bit(3));
    assert!(f.bit(64));
    assert!(!f.bit(65));
    assert!(f.bit(255));
    assert!(!f.bit(256));
    assert!(!f.bit(1000));
}

#[test]
fn address_is_read_big_endian() {
    let mut a = [0u8; 20];
    for (i, b) in a.iter_mut().enumerate() {
        *b = i as u8 + 1;
    }
    let f = address_to_fr(a);
    assert_eq!(f.0, 0x0d0e0f1011121314);
    assert_eq!(f.1, 0x05060708090a0b0c);
    assert_eq!(f.2, 0x01020304);
    assert_eq!(f.3, 0);
    let mut low = [0u8; 20];
    low[19] = 0x2a;
    assert_eq!(address_to_fr(low), Fr(0x2a, 0, 0, 0));
}

#[test]
fn path_transitions() {
    assert!(path_transition_allowed(PathType::Start, PathType::Common));
    assert!(path_transition_allowed(PathType::Common, PathType::ExtensionOld));
    assert!(path_transition_allowed(PathType::ExtensionNew, PathType::ExtensionNew));
    assert!(path_transition_allowed(PathType::ExtensionOld, PathType::Start));
    assert!(!path_transition_allowed(PathType::ExtensionOld, PathType::Common));
    assert!(!path_transition_allowed(PathType::ExtensionOld, PathType::ExtensionNew));
    assert!(!path_transition_allowed(PathType::ExtensionNew, PathType::ExtensionOld));
    let table = path::backward_transitions();
    assert_eq!(table.len(), 4);
    assert_eq!(table[1], (PathType::Common, vec![PathType::Start, PathType::Common]));
}

#[test]
fn segment_transitions() {
    assert!(segment_transition_allowed(SegmentType::Start, SegmentType::AccountTrie));
    assert!(segment_transition_allowed(SegmentType::AccountTrie, SegmentType::AccountTrie));
    assert!(segment_transition_allowed(SegmentType::AccountLeaf2, SegmentType::AccountLeaf3));
    assert!(segment_transition_allowed(SegmentType::StorageLeaf1, SegmentType::Start));
    assert!(!segment_transition_allowed(SegmentType::AccountLeaf0, SegmentType::AccountLeaf2));
    assert!(!segment_transition_allowed(SegmentType::Start, SegmentType::Start));
    assert!(!segment_transition_allowed(SegmentType::StorageTrie, SegmentType::AccountTrie));
    let table = segment::backward_transitions();
    assert_eq!(table.len(), 10);
    assert_eq!(table[0].0, SegmentType::Start);
    assert_eq!(table[3], (SegmentType::AccountLeaf1, vec![SegmentType::AccountLeaf0]));
    // Every listed source agrees with the check of one pair.
    for (sink, sources) in &table {
        for source in SegmentType::all() {
            assert_eq!(sources.contains(&source), segment_transition_allowed(source, *sink));
        }
    }
}

#[test]
fn variants_are_listed() {
    assert_eq!(PathType::all().len(), 4);
    assert_eq!(SegmentType::all().len(), 10);
    let all = MPTProofType::all();
    assert_eq!(all.len(), 9);
    let unsupported: Vec<MPTProofType> = all.into_iter().filter(|p| !p.is_supported()).collect();
    assert_eq!(
        unsupported,
        vec![MPTProofType::PoseidonCodeHashExists, MPTProofType::CodeSizeExists]
    );
}

#[test]
fn canonical_limbs() {
    let modulus = (
        0x43e1f593f0000001u64,
        0x2833e84879b97091u64,
        0xb85045b68181585du64,
        0x30644e72e131a029u64,
    );
    assert_eq!(Fr::from_limbs(modulus.0, modulus.1, modulus.2, modulus.3), None);
    assert_eq!(
        Fr::from_limbs(modulus.0 - 1, modulus.1, modulus.2, modulus.3),
        Some(Fr(modulus.0 - 1, modulus.1, modulus.2, modulus.3))
    );
    assert_eq!(Fr::from_limbs(0, 0, 0, u64::MAX), None);
    assert!(Fr::zero().is_canonical());
    assert!(Fr::one().is_canonical());
    assert!(address_to_fr([0xff; 20]).is_canonical());
    assert!(!Fr(0, 0, modulus.2 + 1, modulus.3).is_canonical());
}
