use vstd::prelude::*;

verus! {

/// The kind of state claim that one update proves.
#[derive(Clone, Copy, Debug, PartialEq, Eq, Structural)]
pub enum MPTProofType {
    NonceChanged,
    BalanceChanged,
    CodeHashExists,
    AccountDoesNotExist,
    AccountDestructed,
    StorageChanged,
    StorageDoesNotExist,
    PoseidonCodeHashExists,
    CodeSizeExists,
}

/// Every proof type, in declaration order.
pub open spec fn all_proof_types() -> Seq<MPTProofType> {
    seq![
        MPTProofType::NonceChanged,
        MPTProofType::BalanceChanged,
        MPTProofType::CodeHashExists,
        MPTProofType::AccountDoesNotExist,
        MPTProofType::AccountDestructed,
        MPTProofType::StorageChanged,
        MPTProofType::StorageDoesNotExist,
        MPTProofType::PoseidonCodeHashExists,
        MPTProofType::CodeSizeExists,
    ]
}

/// The proof types that have no constraints yet and must be refused.
pub open spec fn is_unsupported(p: MPTProofType) -> bool {
    p == MPTProofType::PoseidonCodeHashExists || p == MPTProofType::CodeSizeExists
}

/// The proof type's position in declaration order, from 0.
pub open spec fn proof_type_index(p: MPTProofType) -> u64 {
    match p {
        MPTProofType::NonceChanged => 0,
        MPTProofType::BalanceChanged => 1,
        MPTProofType::CodeHashExists => 2,
        MPTProofType::AccountDoesNotExist => 3,
        MPTProofType::AccountDestructed => 4,
        MPTProofType::StorageChanged => 5,
        MPTProofType::StorageDoesNotExist => 6,
        MPTProofType::PoseidonCodeHashExists => 7,
        MPTProofType::CodeSizeExists => 8,
    }
}

/// Each proof type's index is its position among all proof types, so two
/// different proof types have different indices.
pub proof fn lemma_proof_type_index(p: MPTProofType, q: MPTProofType)
    ensures
        all_proof_types()[proof_type_index(p) as int] == p,
        proof_type_index(p) == proof_type_index(q) ==> p == q,
{
}

impl MPTProofType {
    /// The proof type's position in declaration order, from 0.
    pub fn index(&self) -> (r: u64)
        ensures
            r == proof_type_index(*self),
    {
        match self {
            MPTProofType::NonceChanged => 0,
            MPTProofType::BalanceChanged => 1,
            MPTProofType::CodeHashExists => 2,
            MPTProofType::AccountDoesNotExist => 3,
            MPTProofType::AccountDestructed => 4,
            MPTProofType::StorageChanged => 5,
            MPTProofType::StorageDoesNotExist => 6,
            MPTProofType::PoseidonCodeHashExists => 7,
            MPTProofType::CodeSizeExists => 8,
        }
    }

    /// Every proof type, in declaration order.
    pub fn all() -> (r: Vec<MPTProofType>)
        ensures
            r@ == all_proof_types(),
    {
        let r = vec![
            MPTProofType::NonceChanged,
            MPTProofType::BalanceChanged,
            MPTProofType::CodeHashExists,
            MPTProofType::AccountDoesNotExist,
            MPTProofType::AccountDestructed,
            MPTProofType::StorageChanged,
            MPTProofType::StorageDoesNotExist,
            MPTProofType::PoseidonCodeHashExists,
            MPTProofType::CodeSizeExists,
        ];
        assert(r@ =~= all_proof_types());
        r
    }

    pub fn is_supported(&self) -> (r: bool)
        ensures
            r == !is_unsupported(*self),
    {
        !matches!(self, MPTProofType::PoseidonCodeHashExists | MPTProofType::CodeSizeExists)
    }
}

} // verus!
