use vstd::prelude::*;

use crate::field::Fr;

verus! {

/// `h` is a two-input hash function on field elements: it accepts every
/// pair, and what it returns is determined by the pair.
pub open spec fn is_hash_fn<H: Fn(Fr, Fr) -> Fr>(h: H) -> bool {
    &&& forall|a: Fr, b: Fr| #[trigger] h.requires((a, b))
    &&& forall|a: Fr, b: Fr, x: Fr, y: Fr|
        #[trigger] h.ensures((a, b), x) && #[trigger] h.ensures((a, b), y) ==> x == y
}

/// The value of the hash function `h` on `(a, b)`.
pub open spec fn hash_of<H: Fn(Fr, Fr) -> Fr>(h: H, a: Fr, b: Fr) -> Fr {
    choose|r: Fr| h.ensures((a, b), r)
}

/// A result that `h` gave on `(a, b)` is its value there.
pub proof fn lemma_hash_of<H: Fn(Fr, Fr) -> Fr>(h: H, a: Fr, b: Fr, r: Fr)
    requires
        is_hash_fn(h),
        h.ensures((a, b), r),
    ensures
        r == hash_of(h, a, b),
{
}

/// Hashes the pair `(a, b)` with `h`.
pub fn hash_pair<H: Fn(Fr, Fr) -> Fr>(h: &H, a: Fr, b: Fr) -> (r: Fr)
    requires
        is_hash_fn(*h),
    ensures
        r == hash_of(*h, a, b),
        h.ensures((a, b), r),
{
    let r = h(a, b);
    proof {
        lemma_hash_of(*h, a, b, r);
    }
    r
}

} // verus!
