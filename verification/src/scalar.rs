//! Double-precision numbers held by their bit patterns.
//!
//! The bookkeeping carries the engine's numbers through without computing
//! with them. Where it has to compare two of them it does so on the bit
//! patterns, by the order that IEEE 754 gives to doubles.

use vstd::prelude::*;

verus! {

/// The bit that holds a double's sign.
pub const SIGN_BIT: u64 = 0x8000_0000_0000_0000;

/// The bit pattern of positive infinity; a larger magnitude is not a number.
pub const INFINITY_BITS: u64 = 0x7FF0_0000_0000_0000;

/// The bit pattern of the strength of a weak constraint, 1.
pub const WEAK_BITS: u64 = 0x3FF0_0000_0000_0000;

/// The bit pattern of the strength of a medium constraint, 1000.
pub const MEDIUM_BITS: u64 = 0x408F_4000_0000_0000;

/// The bit pattern of the strength of a strong constraint, 1000000.
pub const STRONG_BITS: u64 = 0x412E_8480_0000_0000;

/// The bit pattern of the strength of a required constraint, 1001001000.
pub const REQUIRED_BITS: u64 = 0x41CD_D508_1400_0000;

/// The bit pattern of the number 1.
pub const ONE_BITS: u64 = 0x3FF0_0000_0000_0000;

/// A double-precision number, carried as its IEEE 754 bit pattern.
#[derive(Clone, Copy, Debug, PartialEq, Eq, Structural)]
pub struct Scalar {
    pub bits: u64,
}

impl Scalar {
    /// The bit pattern without its sign.
    pub open spec fn magnitude(self) -> int {
        if self.bits >= SIGN_BIT {
            self.bits - SIGN_BIT
        } else {
            self.bits as int
        }
    }

    /// Whether the sign bit is set.
    pub open spec fn signed(self) -> bool {
        self.bits >= SIGN_BIT
    }

    /// Whether the pattern stands for no number.
    pub open spec fn nan(self) -> bool {
        self.magnitude() > INFINITY_BITS
    }

    /// The place of the number among the doubles: the patterns of two numbers
    /// are ordered as the numbers are, and the two zeros share a place.
    pub open spec fn rank(self) -> int {
        if self.signed() {
            -self.magnitude()
        } else {
            self.magnitude()
        }
    }

    /// `self < other` as doubles: false where either is not a number.
    pub open spec fn lt(self, other: Scalar) -> bool {
        !self.nan() && !other.nan() && self.rank() < other.rank()
    }

    /// `self == other` as doubles: false where either is not a number.
    pub open spec fn same_number(self, other: Scalar) -> bool {
        !self.nan() && !other.nan() && self.rank() == other.rank()
    }

    /// The number whose bit pattern is `bits`.
    pub fn from_bits(bits: u64) -> (r: Scalar)
        ensures
            r.bits == bits,
    {
        Scalar { bits }
    }

    /// The bit pattern of this number.
    pub fn to_bits(self) -> (r: u64)
        ensures
            r == self.bits,
    {
        self.bits
    }

    /// The number 0.
    pub fn zero() -> (r: Scalar)
        ensures
            r.bits == 0,
    {
        Scalar { bits: 0 }
    }

    /// The number 1.
    pub fn one() -> (r: Scalar)
        ensures
            r.bits == ONE_BITS,
    {
        Scalar { bits: ONE_BITS }
    }

    /// The number -1.
    pub fn minus_one() -> (r: Scalar)
        ensures
            r.bits == ONE_BITS + SIGN_BIT,
    {
        Scalar { bits: ONE_BITS + SIGN_BIT }
    }

    /// The strength of a weak constraint.
    pub fn weak() -> (r: Scalar)
        ensures
            r.bits == WEAK_BITS,
    {
        Scalar { bits: WEAK_BITS }
    }

    /// The strength of a medium constraint.
    pub fn medium() -> (r: Scalar)
        ensures
            r.bits == MEDIUM_BITS,
    {
        Scalar { bits: MEDIUM_BITS }
    }

    /// The strength of a strong constraint.
    pub fn strong() -> (r: Scalar)
        ensures
            r.bits == STRONG_BITS,
    {
        Scalar { bits: STRONG_BITS }
    }

    /// The strength of a required constraint.
    pub fn required() -> (r: Scalar)
        ensures
            r.bits == REQUIRED_BITS,
    {
        Scalar { bits: REQUIRED_BITS }
    }

    fn magnitude_bits(self) -> (r: u64)
        ensures
            r == self.magnitude(),
    {
        if self.bits >= SIGN_BIT {
            self.bits - SIGN_BIT
        } else {
            self.bits
        }
    }

    /// Whether the pattern stands for no number.
    pub fn is_nan(self) -> (r: bool)
        ensures
            r == self.nan(),
    {
        self.magnitude_bits() > INFINITY_BITS
    }

    /// Whether `self < other` as doubles.
    pub fn less_than(self, other: Scalar) -> (r: bool)
        ensures
            r == self.lt(other),
    {
        if self.is_nan() || other.is_nan() {
            return false;
        }
        let a: u64 = self.magnitude_bits();
        let b: u64 = other.magnitude_bits();
        if self.bits >= SIGN_BIT {
            if other.bits >= SIGN_BIT {
                b < a
            } else {
                a != 0 || b != 0
            }
        } else {
            if other.bits >= SIGN_BIT {
                false
            } else {
                a < b
            }
        }
    }

    /// Whether `self == other` as doubles.
    pub fn equals(self, other: Scalar) -> (r: bool)
        ensures
            r == self.same_number(other),
    {
        if self.is_nan() || other.is_nan() {
            return false;
        }
        let a: u64 = self.magnitude_bits();
        let b: u64 = other.magnitude_bits();
        if (self.bits >= SIGN_BIT) == (other.bits >= SIGN_BIT) {
            a == b
        } else {
            a == 0 && b == 0
        }
    }
}

/// The order of doubles is strict and total on numbers: nothing is below
/// itself; two numbers are never each below the other, nor equal and one
/// below the other; what is below something below a third is below the
/// third; and of two numbers one is below the other or they are equal.
pub proof fn order_is_strict(a: Scalar, b: Scalar, c: Scalar)
    ensures
        !a.lt(a),
        !(a.lt(b) && b.lt(a)),
        !(a.lt(b) && a.same_number(b)),
        a.lt(b) && b.lt(c) ==> a.lt(c),
        !a.nan() && !b.nan() ==> a.lt(b) || b.lt(a) || a.same_number(b),
{
}

} // verus!
