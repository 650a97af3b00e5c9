//! Ratings as IEEE 754 binary32 bit patterns, and their order.

use vstd::prelude::*;

verus! {

/// Bit pattern of the binary32 sign bit.
pub const SIGN_BIT: u32 = 0x8000_0000;

/// Bit pattern of positive infinity: every magnitude above it is a NaN.
pub const INFINITY_BITS: u32 = 0x7f80_0000;

/// A rating: an IEEE 754 binary32 number carried as its bit pattern.
///
/// The analytics only ever compare ratings; they never add or divide them.
/// The comparison of two binary32 numbers is a function of their bit patterns
/// alone, and the spec functions of this type state it over the integers: a
/// NaN compares false with everything, and the other numbers compare as their
/// bit patterns do when these are read as a sign and a magnitude.
#[derive(Clone, Copy, Debug)]
pub struct Rating {
    /// The bit pattern: the sign in the highest bit, then eight bits of
    /// exponent and twenty-three of fraction.
    pub bits: u32,
}

impl Rating {
    /// The bit pattern without its sign bit.
    pub open spec fn magnitude(self) -> int {
        if self.bits >= SIGN_BIT {
            self.bits - SIGN_BIT
        } else {
            self.bits as int
        }
    }

    /// Whether the number is a NaN, which compares false with everything.
    pub open spec fn spec_is_nan(self) -> bool {
        self.magnitude() > INFINITY_BITS
    }

    /// The place of a number that is not a NaN on the number line: numbers
    /// that are not NaN compare as their ordinals do. Both zeros have
    /// ordinal 0.
    pub open spec fn ordinal(self) -> int {
        if self.bits >= SIGN_BIT {
            -self.magnitude()
        } else {
            self.magnitude()
        }
    }

    /// `self > other` as binary32 numbers.
    pub open spec fn spec_gt(self, other: Rating) -> bool {
        !self.spec_is_nan() && !other.spec_is_nan() && self.ordinal() > other.ordinal()
    }

    /// `self < other` as binary32 numbers.
    pub open spec fn spec_lt(self, other: Rating) -> bool {
        !self.spec_is_nan() && !other.spec_is_nan() && self.ordinal() < other.ordinal()
    }

    /// `self >= other` as binary32 numbers.
    pub open spec fn spec_ge(self, other: Rating) -> bool {
        !self.spec_is_nan() && !other.spec_is_nan() && self.ordinal() >= other.ordinal()
    }

    /// The rating with the given bit pattern.
    pub fn from_bits(bits: u32) -> (r: Rating)
        ensures
            r.bits == bits,
    {
        Rating { bits }
    }

    /// The bit pattern of the rating.
    pub fn to_bits(self) -> (bits: u32)
        ensures
            bits == self.bits,
    {
        self.bits
    }

    /// Whether the rating is a NaN.
    #[verifier::when_used_as_spec(spec_is_nan)]
    pub fn is_nan(self) -> (b: bool)
        ensures
            b == self.spec_is_nan(),
    {
        if self.bits >= SIGN_BIT {
            self.bits - SIGN_BIT > INFINITY_BITS
        } else {
            self.bits > INFINITY_BITS
        }
    }

    /// The ordinal of the rating.
    fn place(self) -> (p: i64)
        ensures
            p == self.ordinal(),
    {
        if self.bits >= SIGN_BIT {
            let m: u32 = self.bits - SIGN_BIT;
            -(m as i64)
        } else {
            self.bits as i64
        }
    }

    /// `self > other` as binary32 numbers.
    #[verifier::when_used_as_spec(spec_gt)]
    pub fn gt(self, other: Rating) -> (b: bool)
        ensures
            b == self.spec_gt(other),
    {
        !self.is_nan() && !other.is_nan() && self.place() > other.place()
    }

    /// `self < other` as binary32 numbers.
    #[verifier::when_used_as_spec(spec_lt)]
    pub fn lt(self, other: Rating) -> (b: bool)
        ensures
            b == self.spec_lt(other),
    {
        !self.is_nan() && !other.is_nan() && self.place() < other.place()
    }

    /// `self >= other` as binary32 numbers.
    #[verifier::when_used_as_spec(spec_ge)]
    pub fn ge(self, other: Rating) -> (b: bool)
        ensures
            b == self.spec_ge(other),
    {
        !self.is_nan() && !other.is_nan() && self.place() >= other.place()
    }
}

} // verus!
