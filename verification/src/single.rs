//! Binary floating-point values, held by their IEEE 754 encodings.
//!
//! An encoding is a plain integer, so comparing, clamping and selecting values is exact integer
//! work. Computing new values is left to [`Arithmetic`](crate::arithmetic::Arithmetic).

use vstd::prelude::*;

verus! {

/// The encoding of `0.0`.
pub const ZERO: u32 = 0x0000_0000;

/// The encoding of `0.5`.
pub const ONE_HALF: u32 = 0x3f00_0000;

/// The encoding of `1.0`.
pub const ONE: u32 = 0x3f80_0000;

/// The encoding of `2.0`.
pub const TWO: u32 = 0x4000_0000;

/// The encoding of `3.0`.
pub const THREE: u32 = 0x4040_0000;

/// The encoding of the distance between `1.0` and the next larger value.
pub const EPSILON: u32 = 0x3400_0000;

/// A binary32 value, identified by its encoding.
#[derive(Clone, Copy, PartialEq, Eq, Debug, Structural)]
pub struct Single {
    pub bits: u32,
}

/// The value with the given encoding.
#[verifier::allow_in_spec]
pub fn single(bits: u32) -> Single
    returns
        (Single { bits }),
{
    Single { bits }
}

impl Single {
    /// Whether the sign bit is set.
    #[verifier::allow_in_spec]
    pub fn is_negative(self) -> bool
        returns
            self.bits >= 0x8000_0000u32,
    {
        self.bits >= 0x8000_0000
    }

    /// The value without its sign.
    #[verifier::allow_in_spec]
    pub fn absolute(self) -> Single
        returns
            (if self.is_negative() {
                Single { bits: (self.bits - 0x8000_0000u32) as u32 }
            } else {
                self
            }),
    {
        if self.is_negative() {
            Single { bits: self.bits - 0x8000_0000 }
        } else {
            self
        }
    }

    /// The value with its sign flipped.
    #[verifier::allow_in_spec]
    pub fn negated(self) -> Single
        returns
            (if self.is_negative() {
                Single { bits: (self.bits - 0x8000_0000u32) as u32 }
            } else {
                Single { bits: (self.bits + 0x8000_0000u32) as u32 }
            }),
    {
        if self.is_negative() {
            Single { bits: self.bits - 0x8000_0000 }
        } else {
            Single { bits: self.bits + 0x8000_0000 }
        }
    }

    /// Whether the encoding stands for no number.
    #[verifier::allow_in_spec]
    pub fn is_nan(self) -> bool
        returns
            self.absolute().bits > 0x7f80_0000u32,
    {
        self.absolute().bits > 0x7f80_0000
    }

    /// Whether the value is a number other than an infinity.
    #[verifier::allow_in_spec]
    pub fn is_finite(self) -> bool
        returns
            self.absolute().bits < 0x7f80_0000u32,
    {
        self.absolute().bits < 0x7f80_0000
    }

    /// An integer that orders numbers as their values do. Both zeros have order `0`.
    #[verifier::allow_in_spec]
    pub fn order(self) -> i64
        returns
            (if self.is_negative() {
                -(self.absolute().bits as int)
            } else {
                self.bits as int
            }) as i64,
    {
        if self.is_negative() {
            -(self.absolute().bits as i64)
        } else {
            self.bits as i64
        }
    }

    /// An integer that orders all encodings: by value where both are numbers, the negative zero
    /// below the positive one, and encodings of no number at the two ends.
    #[verifier::allow_in_spec]
    pub fn total_order(self) -> i64
        returns
            (if self.is_negative() {
                -1 - self.absolute().bits
            } else {
                self.bits as int
            }) as i64,
    {
        if self.is_negative() {
            -1 - (self.absolute().bits as i64)
        } else {
            self.bits as i64
        }
    }

    /// `self <= other`: never true where either is no number.
    #[verifier::allow_in_spec]
    pub fn at_most(self, other: Single) -> bool
        returns
            !self.is_nan() && !other.is_nan() && self.order() <= other.order(),
    {
        !self.is_nan() && !other.is_nan() && self.order() <= other.order()
    }

    /// `self < other`: never true where either is no number.
    #[verifier::allow_in_spec]
    pub fn below(self, other: Single) -> bool
        returns
            !self.is_nan() && !other.is_nan() && self.order() < other.order(),
    {
        !self.is_nan() && !other.is_nan() && self.order() < other.order()
    }

    /// `self == other`: never true where either is no number, true of the two zeros.
    #[verifier::allow_in_spec]
    pub fn equals(self, other: Single) -> bool
        returns
            !self.is_nan() && !other.is_nan() && self.order() == other.order(),
    {
        !self.is_nan() && !other.is_nan() && self.order() == other.order()
    }

    /// Whether the value lies in the closed range from `low` to `high`.
    #[verifier::allow_in_spec]
    pub fn is_within(self, low: Single, high: Single) -> bool
        returns
            low.at_most(self) && self.at_most(high),
    {
        low.at_most(self) && self.at_most(high)
    }

    /// The value moved to the nearer end where it lies outside of the range from `low` to `high`.
    /// No number stays what it is.
    #[verifier::allow_in_spec]
    pub fn clamped(self, low: Single, high: Single) -> Single
        returns
            (if self.below(low) {
                low
            } else if high.below(self) {
                high
            } else {
                self
            }),
    {
        if self.below(low) {
            low
        } else if high.below(self) {
            high
        } else {
            self
        }
    }

    /// The larger of two values, or the one that is a number.
    #[verifier::allow_in_spec]
    pub fn larger(self, other: Single) -> Single
        returns
            (if self.is_nan() || self.below(other) {
                other
            } else {
                self
            }),
    {
        if self.is_nan() || self.below(other) {
            other
        } else {
            self
        }
    }

    /// The smaller of two values, or the one that is a number.
    #[verifier::allow_in_spec]
    pub fn smaller(self, other: Single) -> Single
        returns
            (if self.is_nan() || other.below(self) {
                other
            } else {
                self
            }),
    {
        if self.is_nan() || other.below(self) {
            other
        } else {
            self
        }
    }
}

/// A binary64 value, identified by its encoding.
#[derive(Clone, Copy, PartialEq, Eq, Debug, Structural)]
pub struct Double {
    pub bits: u64,
}

/// The binary64 value with the given encoding.
#[verifier::allow_in_spec]
pub fn double(bits: u64) -> Double
    returns
        (Double { bits }),
{
    Double { bits }
}

impl Double {
    /// Whether the sign bit is set.
    #[verifier::allow_in_spec]
    pub fn is_negative(self) -> bool
        returns
            self.bits >= 0x8000_0000_0000_0000u64,
    {
        self.bits >= 0x8000_0000_0000_0000
    }

    /// The value without its sign.
    #[verifier::allow_in_spec]
    pub fn absolute(self) -> Double
        returns
            (if self.is_negative() {
                Double { bits: (self.bits - 0x8000_0000_0000_0000u64) as u64 }
            } else {
                self
            }),
    {
        if self.is_negative() {
            Double { bits: self.bits - 0x8000_0000_0000_0000 }
        } else {
            self
        }
    }

    /// Whether the encoding stands for no number.
    #[verifier::allow_in_spec]
    pub fn is_nan(self) -> bool
        returns
            self.absolute().bits > 0x7ff0_0000_0000_0000u64,
    {
        self.absolute().bits > 0x7ff0_0000_0000_0000
    }

    /// Whether the value is a number other than an infinity.
    #[verifier::allow_in_spec]
    pub fn is_finite(self) -> bool
        returns
            self.absolute().bits < 0x7ff0_0000_0000_0000u64,
    {
        self.absolute().bits < 0x7ff0_0000_0000_0000
    }

    /// An integer that orders numbers as their values do. Both zeros have order `0`.
    #[verifier::allow_in_spec]
    pub fn order(self) -> i128
        returns
            (if self.is_negative() {
                -(self.absolute().bits as int)
            } else {
                self.bits as int
            }) as i128,
    {
        if self.is_negative() {
            -(self.absolute().bits as i128)
        } else {
            self.bits as i128
        }
    }

    /// `self <= other`: never true where either is no number.
    #[verifier::allow_in_spec]
    pub fn at_most(self, other: Double) -> bool
        returns
            !self.is_nan() && !other.is_nan() && self.order() <= other.order(),
    {
        !self.is_nan() && !other.is_nan() && self.order() <= other.order()
    }

    /// `self < other`: never true where either is no number.
    #[verifier::allow_in_spec]
    pub fn below(self, other: Double) -> bool
        returns
            !self.is_nan() && !other.is_nan() && self.order() < other.order(),
    {
        !self.is_nan() && !other.is_nan() && self.order() < other.order()
    }
}

} // verus!
