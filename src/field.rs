use vstd::prelude::*;

verus! {

/// A field element, held as the four 64-bit limbs of its canonical
/// little-endian representation (limb 0 is the least significant).
#[derive(Clone, Copy, Debug, PartialEq, Eq, Structural)]
pub struct Fr(pub u64, pub u64, pub u64, pub u64);

pub open spec fn limb(f: Fr, k: int) -> u64 {
    if k == 0 { f.0 } else if k == 1 { f.1 } else if k == 2 { f.2 } else { f.3 }
}

/// The limbs of the BN254 scalar field's modulus, least significant first.
pub const MODULUS_0: u64 = 0x43e1f593f0000001;
pub const MODULUS_1: u64 = 0x2833e84879b97091;
pub const MODULUS_2: u64 = 0xb85045b68181585d;
pub const MODULUS_3: u64 = 0x30644e72e131a029;

/// Whether the limbs are a canonical representation: their value is below
/// the field's modulus.
pub open spec fn is_canonical(f: Fr) -> bool {
    if f.3 != MODULUS_3 {
        f.3 < MODULUS_3
    } else if f.2 != MODULUS_2 {
        f.2 < MODULUS_2
    } else if f.1 != MODULUS_1 {
        f.1 < MODULUS_1
    } else {
        f.0 < MODULUS_0
    }
}

/// Bit `i` of the little-endian representation; false from bit 256 on.
pub open spec fn spec_bit(f: Fr, i: int) -> bool {
    0 <= i < 256 && (limb(f, i / 64) >> ((i % 64) as u64)) & 1u64 == 1u64
}

impl Fr {
    pub fn zero() -> (r: Fr)
        ensures
            r == Fr(0, 0, 0, 0),
            is_canonical(r),
    {
        Fr(0, 0, 0, 0)
    }

    pub fn one() -> (r: Fr)
        ensures
            r == Fr(1, 0, 0, 0),
            is_canonical(r),
    {
        Fr(1, 0, 0, 0)
    }

    /// The field element with these limbs, least significant first, where
    /// they are a canonical representation; `None` where their value is the
    /// modulus or above.
    pub fn from_limbs(l0: u64, l1: u64, l2: u64, l3: u64) -> (r: Option<Fr>)
        ensures
            is_canonical(Fr(l0, l1, l2, l3)) ==> r == Some(Fr(l0, l1, l2, l3)),
            !is_canonical(Fr(l0, l1, l2, l3)) ==> r is None,
    {
        let f = Fr(l0, l1, l2, l3);
        let canonical = if l3 != MODULUS_3 {
            l3 < MODULUS_3
        } else if l2 != MODULUS_2 {
            l2 < MODULUS_2
        } else if l1 != MODULUS_1 {
            l1 < MODULUS_1
        } else {
            l0 < MODULUS_0
        };
        if canonical { Some(f) } else { None }
    }

    pub fn is_canonical(&self) -> (r: bool)
        ensures
            r == is_canonical(*self),
    {
        Fr::from_limbs(self.0, self.1, self.2, self.3).is_some()
    }

    /// Bit `i` of the little-endian representation.
    pub fn bit(&self, i: usize) -> (r: bool)
        ensures
            r == spec_bit(*self, i as int),
    {
        if i >= 256 {
            return false;
        }
        let k = i / 64;
        let l = if k == 0 { self.0 } else if k == 1 { self.1 } else if k == 2 { self.2 } else { self.3 };
        (l >> ((i % 64) as u64)) & 1u64 == 1u64
    }
}

/// The number that the bytes `s` spell, most significant byte first.
pub open spec fn be_value(s: Seq<u8>) -> nat
    decreases s.len(),
{
    if s.len() == 0 {
        0
    } else {
        be_value(s.drop_last()) * 256 + s.last() as nat
    }
}

pub open spec fn pow256(n: nat) -> nat
    decreases n,
{
    if n == 0 { 1 } else { pow256((n - 1) as nat) * 256 }
}

proof fn lemma_be_value_bound(s: Seq<u8>)
    ensures
        be_value(s) < pow256(s.len()),
    decreases s.len(),
{
    if s.len() > 0 {
        lemma_be_value_bound(s.drop_last());
        let v = be_value(s.drop_last());
        let p = pow256(s.drop_last().len());
        assert(v * 256 + (s.last() as nat) < p * 256) by (nonlinear_arith)
            requires v < p, s.last() < 256;
    }
}

proof fn lemma_pow256_monotone(a: nat, b: nat)
    requires
        a <= b,
    ensures
        pow256(a) <= pow256(b),
    decreases b - a,
{
    if a < b {
        lemma_pow256_monotone(a, (b - 1) as nat);
    }
}

/// The big-endian value of `a[start..end]`, at most eight bytes.
fn be_limb(a: &[u8; 20], start: usize, end: usize) -> (r: u64)
    requires
        start <= end <= 20,
        end - start <= 8,
    ensures
        r as nat == be_value(a@.subrange(start as int, end as int)),
{
    proof {
        reveal_with_fuel(pow256, 9);
        assert(pow256(8) == 0x1_0000_0000_0000_0000);
        lemma_pow256_monotone((end - start) as nat, 8);
    }
    let mut acc: u64 = 0;
    let mut k: usize = start;
    while k < end
        invariant
            start <= k <= end <= 20,
            end - start <= 8,
            pow256((end - start) as nat) <= 0x1_0000_0000_0000_0000,
            acc as nat == be_value(a@.subrange(start as int, k as int)),
        decreases end - k,
    {
        proof {
            let s = a@.subrange(start as int, k as int + 1);
            assert(s.drop_last() =~= a@.subrange(start as int, k as int));
            lemma_be_value_bound(s);
            lemma_pow256_monotone(s.len(), (end - start) as nat);
        }
        acc = acc * 256 + a[k] as u64;
        k = k + 1;
    }
    acc
}

/// The field element of a 20-byte address: its limbs, least significant
/// first, hold the address's bytes 12..20, 4..12 and 0..4 read big-endian.
pub open spec fn spec_address_to_fr(a: Seq<u8>) -> Fr {
    Fr(
        be_value(a.subrange(12, 20)) as u64,
        be_value(a.subrange(4, 12)) as u64,
        be_value(a.subrange(0, 4)) as u64,
        0,
    )
}

/// The field element whose value is the 20-byte address `a` read big-endian:
/// the address's bytes, right-aligned in 32 bytes and then reversed, are the
/// little-endian representation.
pub fn address_to_fr(a: [u8; 20]) -> (r: Fr)
    ensures
        r == spec_address_to_fr(a@),
        is_canonical(r),
        r.0 as nat == be_value(a@.subrange(12, 20)),
        r.1 as nat == be_value(a@.subrange(4, 12)),
        r.2 as nat == be_value(a@.subrange(0, 4)),
        r.3 == 0,
{
    Fr(be_limb(&a, 12, 20), be_limb(&a, 4, 12), be_limb(&a, 0, 4), 0)
}

} // verus!
