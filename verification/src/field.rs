//! The fixed prime field that serves as the hash/address domain.
//!
//! Every address, commitment and guest-language number is a scalar below
//! `FIELD_MODULUS`, a 64-bit prime.  The arithmetic here is verified
//! modular arithmetic; the lemmas at the bottom give the injectivity
//! facts the commitment scheme rests on.

use vstd::prelude::*;

verus! {

/// A 64-bit prime: 2^64 - 2^32 + 1.
pub const FIELD_MODULUS: u64 = 0xffff_ffff_0000_0001;

/// A field element: a scalar reduced below `FIELD_MODULUS`.
#[derive(Clone, Copy, PartialEq, Eq, Structural, Debug)]
pub struct Fe {
    v: u64,
}

impl Fe {
    /// The mathematical value of the scalar.
    pub closed spec fn val(self) -> int {
        self.v as int
    }

    /// A field element is well formed when it is reduced.
    pub open spec fn wf(self) -> bool {
        0 <= self.val() < FIELD_MODULUS as int
    }

    /// Build a field element from an already-reduced value.
    pub fn new(v: u64) -> (r: Fe)
        requires
            v < FIELD_MODULUS,
        ensures
            r.val() == v as int,
            r == spec_fe(v as int),
            r.wf(),
    {
        Fe { v }
    }

    /// Build a field element from any machine word, reducing it.
    pub fn from_u64(v: u64) -> (r: Fe)
        ensures
            r.val() == v as int % (FIELD_MODULUS as int),
            r.wf(),
    {
        Fe { v: v % FIELD_MODULUS }
    }

    /// The reduced representative as a machine word.
    pub fn repr(&self) -> (r: u64)
        ensures
            r as int == self.val(),
    {
        self.v
    }

    /// Field addition.
    pub fn add(self, other: Fe) -> (r: Fe)
        requires
            self.wf(),
            other.wf(),
        ensures
            r.val() == (self.val() + other.val()) % (FIELD_MODULUS as int),
            r.wf(),
    {
        let s: u128 = self.v as u128 + other.v as u128;
        Fe { v: (s % (FIELD_MODULUS as u128)) as u64 }
    }

    /// Field subtraction.
    pub fn sub(self, other: Fe) -> (r: Fe)
        requires
            self.wf(),
            other.wf(),
        ensures
            r.val() == (self.val() - other.val() + FIELD_MODULUS as int) % (
            FIELD_MODULUS as int),
            r.wf(),
    {
        let s: u128 = self.v as u128 + FIELD_MODULUS as u128 - other.v as u128;
        Fe { v: (s % (FIELD_MODULUS as u128)) as u64 }
    }

    /// Field multiplication.
    pub fn mul(self, other: Fe) -> (r: Fe)
        requires
            self.wf(),
            other.wf(),
        ensures
            r.val() == (self.val() * other.val()) % (FIELD_MODULUS as int),
            r.wf(),
    {
        proof {
            assert((self.v as int) * (other.v as int) < 0x1_0000_0000_0000_0000_0000_0000_0000_0000)
                by (nonlinear_arith)
                requires
                    0 <= (self.v as int) < 0x1_0000_0000_0000_0000,
                    0 <= (other.v as int) < 0x1_0000_0000_0000_0000,
            ;
        }
        let p: u128 = self.v as u128 * other.v as u128;
        Fe { v: (p % (FIELD_MODULUS as u128)) as u64 }
    }
}

/// The field element with a given reduced value.
pub closed spec fn spec_fe(v: int) -> Fe {
    Fe { v: v as u64 }
}

/// Two field elements are equal exactly when their values are.
pub proof fn lemma_fe_val(a: Fe, b: Fe)
    ensures
        (a == b) <==> (a.val() == b.val()),
{
}

/// `spec_fe` is faithful on machine words.
pub proof fn lemma_spec_fe_u64(v: u64)
    ensures
        spec_fe(v as int).val() == v as int,
{
}

/// `spec_fe` names the element with that value.
pub proof fn lemma_spec_fe_val(v: int)
    requires
        0 <= v < FIELD_MODULUS as int,
    ensures
        spec_fe(v).val() == v,
        spec_fe(v).wf(),
{
}

/// Reduced addition is injective in its second argument: blinding a hash
/// with two different secrets gives two different commitments.
pub proof fn lemma_add_mod_injective(h: int, s1: int, s2: int)
    requires
        0 <= h < FIELD_MODULUS as int,
        0 <= s1 < FIELD_MODULUS as int,
        0 <= s2 < FIELD_MODULUS as int,
        (h + s1) % (FIELD_MODULUS as int) == (h + s2) % (FIELD_MODULUS as int),
    ensures
        s1 == s2,
{
    let m = FIELD_MODULUS as int;
    if h + s1 < m {
        assert((h + s1) % m == h + s1);
    } else {
        assert((h + s1) - m < m);
        assert((h + s1) % m == h + s1 - m);
    }
    if h + s2 < m {
        assert((h + s2) % m == h + s2);
    } else {
        assert((h + s2) % m == h + s2 - m);
    }
}

/// Reduced addition is injective in its first argument: two functions with
/// different structural hashes blind to different commitments under one
/// secret.
pub proof fn lemma_add_mod_injective_left(h1: int, h2: int, s: int)
    requires
        0 <= h1 < FIELD_MODULUS as int,
        0 <= h2 < FIELD_MODULUS as int,
        0 <= s < FIELD_MODULUS as int,
        (h1 + s) % (FIELD_MODULUS as int) == (h2 + s) % (FIELD_MODULUS as int),
    ensures
        h1 == h2,
{
    lemma_add_mod_injective(s, h1, h2);
}

} // verus!
