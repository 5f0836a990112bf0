//! Real and complex scalars, held as IEEE 754 binary64 bit patterns.
//!
//! The register never does arithmetic on its amplitudes: it moves them,
//! flips their signs, and hands them to caller-supplied kernels. A scalar
//! is therefore kept as the 64 bits of its binary64 encoding, and the
//! operations below are exact statements about those bits.

use vstd::prelude::*;
use vstd::arithmetic::power2::{pow2, lemma2_to64, lemma2_to64_rest, lemma_pow2_strictly_increases};
use vstd::bits::lemma_u64_shl_is_mul;

verus! {

/// The sign bit of a binary64 value.
pub const SIGN_BIT: u64 = 0x8000_0000_0000_0000;

/// The encoding of `1.0`.
pub const ONE_BITS: u64 = 0x3FF0_0000_0000_0000;

/// The encoding of positive infinity.
pub const INFINITY_BITS: u64 = 0x7FF0_0000_0000_0000;

/// The mask of the 52 fraction bits.
pub const FRACTION_MASK: u64 = 0x000F_FFFF_FFFF_FFFF;

/// A real number, stored as the bit pattern of its binary64 encoding.
///
/// Equality compares bit patterns: `+0.0` and `-0.0` differ, and a NaN
/// equals itself.
#[derive(Clone, Copy, Debug, PartialEq, Eq, Structural)]
pub struct Qreal {
    pub bits: u64,
}

impl Qreal {
    /// The value with the sign bit flipped.
    pub open spec fn spec_neg(self) -> Qreal {
        Qreal { bits: self.bits ^ SIGN_BIT }
    }

    /// The sign of the encoding: set for negative values.
    pub open spec fn sign(self) -> bool {
        self.bits >= SIGN_BIT
    }

    /// The exponent field of the encoding, between 0 and 2047.
    pub open spec fn exponent(self) -> nat {
        ((self.bits as nat) / pow2(52)) % 2048
    }

    /// The fraction field of the encoding, below `2^52`.
    pub open spec fn fraction(self) -> nat {
        (self.bits as nat) % pow2(52)
    }

    /// Whether the value is below zero. Negative zero and NaN are not.
    pub open spec fn below_zero(self) -> bool {
        &&& self.sign()
        &&& !(self.exponent() == 0 && self.fraction() == 0)
        &&& !(self.exponent() == 2047 && self.fraction() != 0)
    }

    /// Whether the value equals its own floor: it is a whole number or
    /// infinite.
    ///
    /// A normal value is `(2^52 + fraction) * 2^(exponent - 1075)`; it is
    /// whole where the exponent is at least 1075, or where the
    /// significand is a multiple of `2^(1075 - exponent)`. Of the values
    /// below one in magnitude only zero is whole.
    pub open spec fn whole(self) -> bool {
        let e = self.exponent();
        let m = self.fraction();
        if e == 2047 || e == 0 {
            m == 0
        } else if e >= 1075 {
            true
        } else if e < 1023 {
            false
        } else {
            (pow2(52) + m) % pow2((1075 - e) as nat) == 0
        }
    }

    /// Whether the encoding is no number.
    pub open spec fn is_nan(self) -> bool {
        self.exponent() == 2047 && self.fraction() != 0
    }

    /// The encoding without its sign bit.
    pub open spec fn magnitude(self) -> int {
        (self.bits as int) % (pow2(63) as int)
    }

    /// A whole number that orders encodings as their values are ordered:
    /// the magnitude, negated where the sign is set. Both zeros have rank
    /// zero, and of two numbers the greater has the greater rank.
    pub open spec fn rank(self) -> int {
        if self.sign() {
            -self.magnitude()
        } else {
            self.magnitude()
        }
    }

    /// Whether the value is less than that of `other`. Nothing is less
    /// than, or has less than it, what is no number.
    pub open spec fn spec_lt(self, other: Qreal) -> bool {
        !self.is_nan() && !other.is_nan() && self.rank() < other.rank()
    }

    /// Whether the value is at most that of `other`.
    pub open spec fn spec_le(self, other: Qreal) -> bool {
        !self.is_nan() && !other.is_nan() && self.rank() <= other.rank()
    }

    /// The rank, and whether the encoding is a number.
    fn ranked(self) -> (r: (i64, bool))
        ensures
            r.0 == self.rank(),
            r.1 == !self.is_nan(),
    {
        proof {
            self.lemma_fields();
            lemma2_to64();
            lemma2_to64_rest();
            let b = self.bits;
            assert(b & 0x7FFF_FFFF_FFFF_FFFF == b % 0x8000_0000_0000_0000 && ((b
                & 0x7FFF_FFFF_FFFF_FFFF) > 0x7FF0_0000_0000_0000u64 <==> ((b >> 52) & 0x7FF == 2047
                && b & 0x000F_FFFF_FFFF_FFFF != 0))) by (bit_vector);
        }
        let magnitude = self.bits & 0x7FFF_FFFF_FFFF_FFFF;
        let number = magnitude <= INFINITY_BITS;
        if self.bits & SIGN_BIT != 0 {
            (-(magnitude as i64), number)
        } else {
            (magnitude as i64, number)
        }
    }

    /// Whether the value is less than that of `other`.
    pub fn less_than(self, other: Qreal) -> (r: bool)
        ensures
            r == self.spec_lt(other),
    {
        let (a, a_ok) = self.ranked();
        let (b, b_ok) = other.ranked();
        a_ok && b_ok && a < b
    }

    /// Whether the value is at most that of `other`.
    pub fn at_most(self, other: Qreal) -> (r: bool)
        ensures
            r == self.spec_le(other),
    {
        let (a, a_ok) = self.ranked();
        let (b, b_ok) = other.ranked();
        a_ok && b_ok && a <= b
    }

    /// The exponent and fraction fields, as the machine computes them.
    proof fn lemma_fields(self)
        ensures
            self.exponent() == (self.bits >> 52) & 0x7FF,
            self.fraction() == self.bits & FRACTION_MASK,
            self.sign() == (self.bits & SIGN_BIT != 0),
            pow2(52) == 0x0010_0000_0000_0000,
    {
        let b = self.bits;
        lemma2_to64();
        lemma2_to64_rest();
        assert((b >> 52) & 0x7FF == (b / 0x0010_0000_0000_0000) % 2048 && b
            & 0x000F_FFFF_FFFF_FFFF == b % 0x0010_0000_0000_0000 && ((b
            >= 0x8000_0000_0000_0000u64) == (b & 0x8000_0000_0000_0000u64 != 0))) by (bit_vector);
    }

    /// Whether the value is below zero.
    pub fn is_negative(self) -> (r: bool)
        ensures
            r == self.below_zero(),
    {
        proof {
            self.lemma_fields();
        }
        let e = (self.bits >> 52) & 0x7FF;
        let m = self.bits & FRACTION_MASK;
        (self.bits & SIGN_BIT != 0) && !(e == 0 && m == 0) && !(e == 2047 && m != 0)
    }

    /// Whether the value is a whole number or infinite.
    pub fn is_whole(self) -> (r: bool)
        ensures
            r == self.whole(),
    {
        proof {
            self.lemma_fields();
        }
        let e = (self.bits >> 52) & 0x7FF;
        let m = self.bits & FRACTION_MASK;
        if e == 2047 || e == 0 {
            m == 0
        } else if e >= 1075 {
            true
        } else if e < 1023 {
            false
        } else {
            let shift: u64 = 1075 - e;
            proof {
                lemma2_to64();
                lemma2_to64_rest();
                lemma_pow2_strictly_increases(shift as nat, 53);
                lemma_u64_shl_is_mul(1u64, shift);
                let d = pow2(shift as nat);
                vstd::bits::lemma_u64_low_bits_mask_is_mod(m, shift as nat);
                vstd::arithmetic::power2::lemma_pow2_adds(shift as nat, (52 - shift) as nat);
                vstd::arithmetic::power2::lemma_pow2_pos(shift as nat);
                vstd::arithmetic::div_mod::lemma_mod_multiples_vanish(
                    pow2((52 - shift) as nat) as int,
                    m as int,
                    d as int,
                );
                assert((1u64 << shift) - 1 == vstd::bits::low_bits_mask(shift as nat));
            }
            m & ((1u64 << shift) - 1) == 0
        }
    }

    pub fn from_bits(bits: u64) -> (r: Qreal)
        ensures
            r.bits == bits,
    {
        Qreal { bits }
    }

    pub fn to_bits(self) -> (r: u64)
        ensures
            r == self.bits,
    {
        self.bits
    }

    /// Positive zero.
    pub fn zero() -> (r: Qreal)
        ensures
            r.bits == 0,
    {
        Qreal { bits: 0 }
    }

    /// One.
    pub fn one() -> (r: Qreal)
        ensures
            r.bits == ONE_BITS,
    {
        Qreal { bits: ONE_BITS }
    }

    /// Negation: flips the sign bit and nothing else.
    pub fn neg(self) -> (r: Qreal)
        ensures
            r == self.spec_neg(),
    {
        Qreal { bits: self.bits ^ SIGN_BIT }
    }
}

/// A complex number with real part `re` and imaginary part `im`.
#[derive(Clone, Copy, Debug, PartialEq, Eq, Structural)]
pub struct Qcomplex {
    pub re: Qreal,
    pub im: Qreal,
}

impl Qcomplex {
    /// `0 + 0i`.
    pub open spec fn spec_zero() -> Qcomplex {
        Qcomplex { re: Qreal { bits: 0 }, im: Qreal { bits: 0 } }
    }

    /// `1 + 0i`.
    pub open spec fn spec_one() -> Qcomplex {
        Qcomplex { re: Qreal { bits: ONE_BITS }, im: Qreal { bits: 0 } }
    }

    /// `-z`.
    pub open spec fn spec_neg(self) -> Qcomplex {
        Qcomplex { re: self.re.spec_neg(), im: self.im.spec_neg() }
    }

    /// The complex conjugate of `z`.
    pub open spec fn spec_conj(self) -> Qcomplex {
        Qcomplex { re: self.re, im: self.im.spec_neg() }
    }

    /// `i * z`: the quarter turn `(re, im) -> (-im, re)`.
    pub open spec fn spec_times_i(self) -> Qcomplex {
        Qcomplex { re: self.im.spec_neg(), im: self.re }
    }

    /// `-i * z`: the quarter turn `(re, im) -> (im, -re)`.
    pub open spec fn spec_times_neg_i(self) -> Qcomplex {
        Qcomplex { re: self.im, im: self.re.spec_neg() }
    }

    pub fn new(re: Qreal, im: Qreal) -> (r: Qcomplex)
        ensures
            r.re == re,
            r.im == im,
    {
        Qcomplex { re, im }
    }

    pub fn zero() -> (r: Qcomplex)
        ensures
            r == Qcomplex::spec_zero(),
    {
        Qcomplex { re: Qreal::zero(), im: Qreal::zero() }
    }

    pub fn one() -> (r: Qcomplex)
        ensures
            r == Qcomplex::spec_one(),
    {
        Qcomplex { re: Qreal::one(), im: Qreal::zero() }
    }

    pub fn neg(self) -> (r: Qcomplex)
        ensures
            r == self.spec_neg(),
    {
        Qcomplex { re: self.re.neg(), im: self.im.neg() }
    }

    pub fn conj(self) -> (r: Qcomplex)
        ensures
            r == self.spec_conj(),
    {
        Qcomplex { re: self.re, im: self.im.neg() }
    }

    pub fn times_i(self) -> (r: Qcomplex)
        ensures
            r == self.spec_times_i(),
    {
        Qcomplex { re: self.im.neg(), im: self.re }
    }

    pub fn times_neg_i(self) -> (r: Qcomplex)
        ensures
            r == self.spec_times_neg_i(),
    {
        Qcomplex { re: self.im, im: self.re.neg() }
    }
}

impl Qreal {
    /// The encoding of the absolute value: the sign bit is cleared.
    pub open spec fn spec_abs(self) -> Qreal {
        Qreal { bits: self.bits & MAGNITUDE_MASK }
    }
}

/// The mask of all bits but the sign.
pub const MAGNITUDE_MASK: u64 = 0x7FFF_FFFF_FFFF_FFFF;

impl Qcomplex {
    /// Whether `other` has the same size as this number: its parts have
    /// the same absolute values, in the same or in the opposite order.
    /// Numbers of the same size have the same squared magnitude.
    pub open spec fn same_size(self, other: Qcomplex) -> bool {
        ||| (self.re.spec_abs() == other.re.spec_abs() && self.im.spec_abs()
            == other.im.spec_abs())
        ||| (self.re.spec_abs() == other.im.spec_abs() && self.im.spec_abs()
            == other.re.spec_abs())
    }
}

/// Negation, conjugation and quarter turns keep the size of a number.
pub proof fn lemma_turns_keep_size(z: Qcomplex)
    ensures
        z.same_size(z),
        z.spec_neg().same_size(z),
        z.spec_conj().same_size(z),
        z.spec_times_i().same_size(z),
        z.spec_times_neg_i().same_size(z),
{
    let a = z.re.bits;
    let b = z.im.bits;
    assert((a ^ 0x8000_0000_0000_0000u64) & 0x7FFF_FFFF_FFFF_FFFFu64 == a & 0x7FFF_FFFF_FFFF_FFFFu64
        && (b ^ 0x8000_0000_0000_0000u64) & 0x7FFF_FFFF_FFFF_FFFFu64 == b
        & 0x7FFF_FFFF_FFFF_FFFFu64) by (bit_vector);
}

/// Negating twice gives the value back, bit for bit.
pub proof fn lemma_neg_neg(x: Qreal)
    ensures
        x.spec_neg().spec_neg() == x,
{
    let b = x.bits;
    assert((b ^ 0x8000_0000_0000_0000u64) ^ 0x8000_0000_0000_0000u64 == b) by (bit_vector);
}

/// The two quarter turns undo each other, and two of the same make a
/// negation.
pub proof fn lemma_quarter_turns(z: Qcomplex)
    ensures
        z.spec_times_i().spec_times_neg_i() == z,
        z.spec_times_neg_i().spec_times_i() == z,
        z.spec_times_i().spec_times_i() == z.spec_neg(),
        z.spec_times_neg_i().spec_times_neg_i() == z.spec_neg(),
        z.spec_neg().spec_neg() == z,
        z.spec_conj().spec_conj() == z,
{
    lemma_neg_neg(z.re);
    lemma_neg_neg(z.im);
}

} // verus!
