//! 256-bit unsigned integers, as block difficulties are counted, with the
//! arithmetic the chain needs carried out by the `primitive-types` crate.

use vstd::prelude::*;

verus! {

/// 2^64.
pub open spec fn word_base() -> nat {
    0x1_0000_0000_0000_0000nat
}

/// 2^256: one more than the largest [`U256`].
pub open spec fn u256_bound() -> nat {
    word_base() * word_base() * word_base() * word_base()
}

/// An unsigned integer of 256 bits, as four 64-bit words, least significant first.
#[derive(Clone, Copy, Debug, PartialEq, Eq, Hash)]
pub struct U256 {
    pub words: [u64; 4],
}

/// The number four little-endian 64-bit words stand for.
pub open spec fn words_value(w0: u64, w1: u64, w2: u64, w3: u64) -> nat {
    (w0 + w1 * word_base() + w2 * (word_base() * word_base())
        + w3 * (word_base() * word_base() * word_base())) as nat
}

impl U256 {
    /// The number this value stands for.
    pub open spec fn value(self) -> nat {
        words_value(self.words@[0], self.words@[1], self.words@[2], self.words@[3])
    }

    /// Every value is below 2^256.
    pub proof fn lemma_bounded(self)
        ensures
            self.value() < u256_bound(),
    {
        let w0 = self.words@[0];
        let w1 = self.words@[1];
        let w2 = self.words@[2];
        let w3 = self.words@[3];
        assert(words_value(w0, w1, w2, w3) < u256_bound()) by (nonlinear_arith)
            requires
                w0 < word_base(),
                w1 < word_base(),
                w2 < word_base(),
                w3 < word_base(),
        {
        }
    }

    pub fn zero() -> (res: U256)
        ensures
            res.value() == 0,
    {
        let res = U256 { words: [0u64, 0u64, 0u64, 0u64] };
        assert(res.words@[0] == 0 && res.words@[1] == 0 && res.words@[2] == 0 && res.words@[3] == 0);
        res
    }

    /// The 256-bit value of a `u64`.
    pub fn from_u64(n: u64) -> (res: U256)
        ensures
            res.value() == n,
    {
        let res = U256 { words: [n, 0u64, 0u64, 0u64] };
        assert(res.words@[0] == n && res.words@[1] == 0 && res.words@[2] == 0 && res.words@[3] == 0);
        res
    }

    /// `self + other`; the sum must stay below 2^256.
    pub fn add(self, other: U256) -> (res: U256)
        requires
            self.value() + other.value() < u256_bound(),
        ensures
            res.value() == self.value() + other.value(),
    {
        u256_add(self, other)
    }

    /// `self / other`, rounded down; `other` must not be zero.
    pub fn div(self, other: U256) -> (res: U256)
        requires
            other.value() > 0,
        ensures
            res.value() == self.value() / other.value(),
    {
        u256_div(self, other)
    }
}

/// `Add` of `primitive_types::U256` on the same words. Claimed: the exact sum,
/// when it stays below 2^256 (the impl panics on overflow, so that is required).
#[verifier::external_body]
fn u256_add(a: U256, b: U256) -> (res: U256)
    requires
        a.value() + b.value() < u256_bound(),
    ensures
        res.value() == a.value() + b.value(),
{
    U256 { words: (primitive_types::U256(a.words) + primitive_types::U256(b.words)).0 }
}

/// `Div` of `primitive_types::U256` on the same words. Claimed: the quotient
/// rounded down (the impl panics on a zero divisor, so that is excluded).
#[verifier::external_body]
fn u256_div(a: U256, b: U256) -> (res: U256)
    requires
        b.value() > 0,
    ensures
        res.value() == a.value() / b.value(),
{
    U256 { words: (primitive_types::U256(a.words) / primitive_types::U256(b.words)).0 }
}

} // verus!
