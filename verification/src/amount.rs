//! Unsigned 256-bit amounts.
//!
//! An [`Amount`] holds its four 64-bit limbs in the open, least significant first, so
//! that every contract can speak of its value as a natural number. The four arithmetic
//! operators are ruint's, reached through the private functions at the end of this file;
//! everything else is proved here.

use revm::primitives::U256;
use vstd::prelude::*;

verus! {

/// 2^64, the weight of the second limb.
pub open spec fn pow64() -> nat {
    0x1_0000_0000_0000_0000nat
}

/// 2^128, the weight of the third limb.
pub open spec fn pow128() -> nat {
    0x1_0000_0000_0000_0000_0000_0000_0000_0000nat
}

/// 2^192, the weight of the fourth limb.
pub open spec fn pow192() -> nat {
    0x1_0000_0000_0000_0000_0000_0000_0000_0000_0000_0000_0000_0000nat
}

/// 2^256: amounts are the natural numbers below it.
pub open spec fn modulus() -> nat {
    0x1_0000_0000_0000_0000_0000_0000_0000_0000_0000_0000_0000_0000_0000_0000_0000_0000nat
}

/// The number that four limbs stand for, least significant limb first.
pub open spec fn limbs_value(limbs: [u64; 4]) -> nat {
    (limbs[0] as nat) + (limbs[1] as nat) * pow64() + (limbs[2] as nat) * pow128() + (
    limbs[3] as nat) * pow192()
}

/// Every choice of limbs stands for a number below 2^256.
pub proof fn lemma_limbs_value_bounded(limbs: [u64; 4])
    ensures
        limbs_value(limbs) < modulus(),
{
}

/// Numbers compare as their limbs do, read from the most significant limb down.
pub proof fn lemma_limbs_order(a: [u64; 4], b: [u64; 4])
    ensures
        a[3] < b[3] ==> limbs_value(a) < limbs_value(b),
        a[3] == b[3] && a[2] < b[2] ==> limbs_value(a) < limbs_value(b),
        a[3] == b[3] && a[2] == b[2] && a[1] < b[1] ==> limbs_value(a) < limbs_value(b),
        a[3] == b[3] && a[2] == b[2] && a[1] == b[1] && a[0] < b[0] ==> limbs_value(a)
            < limbs_value(b),
        a[3] == b[3] && a[2] == b[2] && a[1] == b[1] && a[0] == b[0] ==> limbs_value(a)
            == limbs_value(b),
{
}

/// An unsigned 256-bit amount of some token.
#[derive(Clone, Copy, Debug, PartialEq, Eq)]
pub struct Amount {
    /// The limbs, least significant first.
    pub limbs: [u64; 4],
}

impl View for Amount {
    type V = nat;

    open spec fn view(&self) -> nat {
        limbs_value(self.limbs)
    }
}

impl Amount {
    /// The amount zero.
    pub fn zero() -> (r: Amount)
        ensures
            r@ == 0,
    {
        Amount { limbs: [0, 0, 0, 0] }
    }

    /// The largest amount, 2^256 - 1.
    pub fn max() -> (r: Amount)
        ensures
            r@ == modulus() - 1,
    {
        Amount {
            limbs: [
                0xffff_ffff_ffff_ffff,
                0xffff_ffff_ffff_ffff,
                0xffff_ffff_ffff_ffff,
                0xffff_ffff_ffff_ffff,
            ],
        }
    }

    /// The amount `value`.
    pub fn from_u64(value: u64) -> (r: Amount)
        ensures
            r@ == value,
    {
        Amount { limbs: [value, 0, 0, 0] }
    }

    /// The amount `value`.
    pub fn from_usize(value: usize) -> (r: Amount)
        ensures
            r@ == value,
    {
        Amount { limbs: [value as u64, 0, 0, 0] }
    }

    /// The amount with the given limbs, least significant first.
    pub fn from_limbs(limbs: [u64; 4]) -> (r: Amount)
        ensures
            r.limbs == limbs,
            r@ == limbs_value(limbs),
    {
        Amount { limbs }
    }

    /// Whether the amount is zero.
    pub fn is_zero(&self) -> (r: bool)
        ensures
            r == (self@ == 0),
    {
        self.limbs[0] == 0 && self.limbs[1] == 0 && self.limbs[2] == 0 && self.limbs[3] == 0
    }

    /// Whether two amounts are the same number.
    pub fn same(&self, other: &Amount) -> (r: bool)
        ensures
            r == (self@ == other@),
    {
        proof {
            lemma_limbs_order(self.limbs, other.limbs);
            lemma_limbs_order(other.limbs, self.limbs);
        }
        self.limbs[0] == other.limbs[0] && self.limbs[1] == other.limbs[1] && self.limbs[2]
            == other.limbs[2] && self.limbs[3] == other.limbs[3]
    }

    /// Whether `self` is strictly less than `other`.
    pub fn lt(&self, other: &Amount) -> (r: bool)
        ensures
            r == (self@ < other@),
    {
        proof {
            lemma_limbs_order(self.limbs, other.limbs);
            lemma_limbs_order(other.limbs, self.limbs);
        }
        if self.limbs[3] != other.limbs[3] {
            self.limbs[3] < other.limbs[3]
        } else if self.limbs[2] != other.limbs[2] {
            self.limbs[2] < other.limbs[2]
        } else if self.limbs[1] != other.limbs[1] {
            self.limbs[1] < other.limbs[1]
        } else {
            self.limbs[0] < other.limbs[0]
        }
    }

    /// Whether `self` is strictly greater than `other`.
    pub fn gt(&self, other: &Amount) -> (r: bool)
        ensures
            r == (self@ > other@),
    {
        other.lt(self)
    }

    /// `self + rhs` modulo 2^256.
    pub fn wrapping_add(self, rhs: Amount) -> (r: Amount)
        ensures
            r@ == (self@ + rhs@) % modulus(),
    {
        Amount { limbs: uint_add(self.limbs, rhs.limbs) }
    }

    /// `self - rhs` modulo 2^256.
    pub fn wrapping_sub(self, rhs: Amount) -> (r: Amount)
        ensures
            r@ == (self@ - rhs@) % (modulus() as int),
    {
        Amount { limbs: uint_sub(self.limbs, rhs.limbs) }
    }

    /// `self * rhs` modulo 2^256.
    pub fn wrapping_mul(self, rhs: Amount) -> (r: Amount)
        ensures
            r@ == (self@ * rhs@) % modulus(),
    {
        Amount { limbs: uint_mul(self.limbs, rhs.limbs) }
    }

    /// `self / rhs` rounded down, or `None` when `rhs` is zero.
    pub fn checked_div(self, rhs: Amount) -> (r: Option<Amount>)
        ensures
            rhs@ == 0 ==> r is None,
            rhs@ != 0 ==> r is Some && r->0@ == self@ / rhs@,
    {
        if rhs.is_zero() {
            None
        } else {
            Some(Amount { limbs: uint_div(self.limbs, rhs.limbs) })
        }
    }
}

/// ruint's `+` on `Uint<256, 4>`, which is its `wrapping_add`: the sum modulo 2^256.
/// `from_limbs` and `into_limbs` take and give the limbs least significant first.
#[verifier::external_body]
fn uint_add(a: [u64; 4], b: [u64; 4]) -> (r: [u64; 4])
    ensures
        limbs_value(r) == (limbs_value(a) + limbs_value(b)) % modulus(),
{
    (U256::from_limbs(a) + U256::from_limbs(b)).into_limbs()
}

/// ruint's `-` on `Uint<256, 4>`, which is its `wrapping_sub`: the difference modulo
/// 2^256.
#[verifier::external_body]
fn uint_sub(a: [u64; 4], b: [u64; 4]) -> (r: [u64; 4])
    ensures
        limbs_value(r) == (limbs_value(a) - limbs_value(b)) % (modulus() as int),
{
    (U256::from_limbs(a) - U256::from_limbs(b)).into_limbs()
}

/// ruint's `*` on `Uint<256, 4>`, which is its `wrapping_mul`: the product modulo 2^256.
#[verifier::external_body]
fn uint_mul(a: [u64; 4], b: [u64; 4]) -> (r: [u64; 4])
    ensures
        limbs_value(r) == (limbs_value(a) * limbs_value(b)) % modulus(),
{
    (U256::from_limbs(a) * U256::from_limbs(b)).into_limbs()
}

/// ruint's `/` on `Uint<256, 4>`, which is its `wrapping_div`: the quotient rounded
/// down. It panics on a zero divisor, which the precondition leaves out.
#[verifier::external_body]
fn uint_div(a: [u64; 4], b: [u64; 4]) -> (r: [u64; 4])
    requires
        limbs_value(b) != 0,
    ensures
        limbs_value(r) == limbs_value(a) / limbs_value(b),
{
    (U256::from_limbs(a) / U256::from_limbs(b)).into_limbs()
}

} // verus!
