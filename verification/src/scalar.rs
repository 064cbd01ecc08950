use crate::sealed::Sealed;
use vstd::prelude::*;

verus! {

/// The bit that holds the sign of a binary64 number.
pub const SIGN_BIT: u64 = 0x8000_0000_0000_0000;

/// The pattern of positive infinity; every larger magnitude is a NaN.
pub const INFINITY_BITS: u64 = 0x7ff0_0000_0000_0000;

/// A double-precision number, carried by its IEEE 754 binary64 bit pattern.
///
/// The library stores and moves such values and orders two of them; it does no
/// arithmetic on them.
#[derive(Clone, Copy, Debug)]
pub struct Real {
    bits: u64,
}

/// A complex number in double precision: real and imaginary part.
#[derive(Clone, Copy, Debug)]
pub struct Complex {
    re: Real,
    im: Real,
}

/// Values that the kernel factorizes: real or complex double-precision numbers.
pub trait KluData: Sealed + Copy {
    /// The zero of the value type, whose bits are all zero.
    spec fn zero_value() -> Self;

    /// Returns the zero of the value type.
    fn zero() -> (z: Self)
        ensures
            z == Self::zero_value(),
    ;
}

impl Real {
    /// The bit pattern of the number.
    pub closed spec fn bits(self) -> u64 {
        self.bits
    }

    /// The number with the given bit pattern.
    pub closed spec fn with_bits(bits: u64) -> Real {
        Real { bits }
    }

    /// The bit pattern without the sign bit.
    pub open spec fn magnitude(self) -> int {
        if self.bits() >= SIGN_BIT {
            self.bits() - SIGN_BIT
        } else {
            self.bits() as int
        }
    }

    /// Whether the sign bit is set.
    pub open spec fn is_negative(self) -> bool {
        self.bits() >= SIGN_BIT
    }

    /// Whether the pattern is not a number: all exponent bits set and a
    /// fraction other than zero.
    pub open spec fn spec_is_nan(self) -> bool {
        self.magnitude() > INFINITY_BITS
    }

    /// The place of the number on the line of all numbers that are not NaN:
    /// binary64 is a sign-magnitude format, so the magnitudes order the
    /// non-negative numbers, and mirrored they order the negative ones. Both
    /// zeros stand at 0.
    pub open spec fn ordinal(self) -> int {
        if self.is_negative() {
            -self.magnitude()
        } else {
            self.magnitude()
        }
    }

    /// `self <= other` as IEEE 754 orders them: false if either is NaN.
    pub open spec fn spec_le(self, other: Real) -> bool {
        &&& !self.spec_is_nan()
        &&& !other.spec_is_nan()
        &&& self.ordinal() <= other.ordinal()
    }

    /// The number with a given pattern has that pattern.
    pub proof fn lemma_bits(bits: u64)
        ensures
            Real::with_bits(bits).bits() == bits,
    {
    }

    /// Numbers with the same pattern are the same number.
    pub proof fn lemma_bits_injective(self, other: Real)
        requires
            self.bits() == other.bits(),
        ensures
            self == other,
    {
    }

    /// Off the NaNs the order is total: every number is at or below itself,
    /// of two numbers one is at or below the other, and what is at or below
    /// a number is at or below every number above that.
    pub proof fn lemma_le_orders(self, second: Real, third: Real)
        requires
            !self.spec_is_nan(),
            !second.spec_is_nan(),
        ensures
            self.spec_le(self),
            self.spec_le(second) || second.spec_le(self),
            self.spec_le(second) && second.spec_le(third) ==> self.spec_le(third),
    {
    }

    /// Every number that is not NaN lies at or below positive infinity.
    pub proof fn lemma_le_infinity(self)
        ensures
            self.spec_le(Real::with_bits(INFINITY_BITS)) <==> !self.spec_is_nan(),
    {
        Real::lemma_bits(INFINITY_BITS);
    }

    /// The numbers at or below zero are the two zeros and the negative
    /// numbers: no positive number is.
    pub proof fn lemma_le_zero(self)
        ensures
            self.spec_le(Real::with_bits(0)) <==> !self.spec_is_nan() && (self.is_negative()
                || self.magnitude() == 0),
    {
        Real::lemma_bits(0);
    }

    /// The number with the given bit pattern.
    pub fn from_bits(bits: u64) -> (r: Real)
        ensures
            r == Real::with_bits(bits),
            r.bits() == bits,
    {
        Real { bits }
    }

    /// The bit pattern of the number.
    pub fn to_bits(self) -> (bits: u64)
        ensures
            bits == self.bits(),
    {
        self.bits
    }

    /// Whether the number is a NaN.
    pub fn is_nan(self) -> (b: bool)
        ensures
            b == self.spec_is_nan(),
    {
        let magnitude: u64 = if self.bits >= SIGN_BIT {
            self.bits - SIGN_BIT
        } else {
            self.bits
        };
        magnitude > INFINITY_BITS
    }

    /// Whether `self <= other`.
    pub fn le(self, other: Real) -> (b: bool)
        ensures
            b == self.spec_le(other),
    {
        if self.is_nan() || other.is_nan() {
            return false;
        }
        let negative: bool = self.bits >= SIGN_BIT;
        let other_negative: bool = other.bits >= SIGN_BIT;
        let magnitude: u64 = if negative {
            self.bits - SIGN_BIT
        } else {
            self.bits
        };
        let other_magnitude: u64 = if other_negative {
            other.bits - SIGN_BIT
        } else {
            other.bits
        };
        if negative {
            if other_negative {
                other_magnitude <= magnitude
            } else {
                true
            }
        } else {
            if other_negative {
                magnitude == 0 && other_magnitude == 0
            } else {
                magnitude <= other_magnitude
            }
        }
    }
}

impl Complex {
    /// The real part.
    pub closed spec fn spec_re(self) -> Real {
        self.re
    }

    /// The imaginary part.
    pub closed spec fn spec_im(self) -> Real {
        self.im
    }

    /// The complex number with the given parts.
    pub closed spec fn with_parts(re: Real, im: Real) -> Complex {
        Complex { re, im }
    }

    /// The parts determine the number.
    pub proof fn lemma_parts(re: Real, im: Real)
        ensures
            Complex::with_parts(re, im).spec_re() == re,
            Complex::with_parts(re, im).spec_im() == im,
    {
    }

    /// The complex number with the given parts.
    pub fn new(re: Real, im: Real) -> (c: Complex)
        ensures
            c == Complex::with_parts(re, im),
            c.spec_re() == re,
            c.spec_im() == im,
    {
        Complex { re, im }
    }

    /// The real part.
    pub fn re(self) -> (r: Real)
        ensures
            r == self.spec_re(),
    {
        self.re
    }

    /// The imaginary part.
    pub fn im(self) -> (r: Real)
        ensures
            r == self.spec_im(),
    {
        self.im
    }
}

impl Sealed for Real {

}

impl Sealed for Complex {

}

impl KluData for Real {
    open spec fn zero_value() -> Real {
        Real::with_bits(0)
    }

    fn zero() -> (z: Real) {
        Real::from_bits(0)
    }
}

impl KluData for Complex {
    open spec fn zero_value() -> Complex {
        Complex::with_parts(Real::with_bits(0), Real::with_bits(0))
    }

    fn zero() -> (z: Complex) {
        Complex::new(Real::from_bits(0), Real::from_bits(0))
    }
}

} // verus!
