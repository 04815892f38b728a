//! Floating-point values held as their IEEE 754 bit patterns.
//!
//! Here such values are compared; [`crate::binary64`] computes with them. A bit
//! pattern is ordered by its rank: the magnitude bits, negated when the sign bit is
//! set. Both zeroes have rank 0.

use vstd::prelude::*;

verus! {

/// A binary64 value as its bit pattern.
#[derive(Clone, Copy, Debug, PartialEq, Eq, Structural)]
pub struct F64Bits {
    pub bits: u64,
}

/// The sign bit of a binary64 pattern.
pub const SIGN_64: u64 = 0x8000_0000_0000_0000;

/// The magnitude bits of binary64 infinity.
pub const INFINITY_64: u64 = 0x7ff0_0000_0000_0000;

impl F64Bits {
    /// The pattern without its sign bit.
    pub open spec fn magnitude(&self) -> int {
        if self.bits >= SIGN_64 {
            self.bits - SIGN_64
        } else {
            self.bits as int
        }
    }

    /// Whether the pattern is not a number.
    pub open spec fn is_nan(&self) -> bool {
        self.magnitude() > INFINITY_64
    }

    /// Whether the pattern is a number other than an infinity.
    pub open spec fn is_finite(&self) -> bool {
        self.magnitude() < INFINITY_64
    }

    /// The place of the value among all numbers.
    pub open spec fn rank(&self) -> int {
        if self.bits >= SIGN_64 {
            -self.magnitude()
        } else {
            self.magnitude()
        }
    }

    /// `self < other` as numbers; false where either is not a number.
    pub open spec fn lt(&self, other: &F64Bits) -> bool {
        !self.is_nan() && !other.is_nan() && self.rank() < other.rank()
    }

    /// `self <= other` as numbers; false where either is not a number.
    pub open spec fn le(&self, other: &F64Bits) -> bool {
        !self.is_nan() && !other.is_nan() && self.rank() <= other.rank()
    }

    /// `self == other` as numbers; false where either is not a number.
    pub open spec fn num_eq(&self, other: &F64Bits) -> bool {
        !self.is_nan() && !other.is_nan() && self.rank() == other.rank()
    }

    pub(crate) fn magnitude_bits(&self) -> (r: u64)
        ensures
            r == self.magnitude(),
            r < SIGN_64,
    {
        if self.bits >= SIGN_64 {
            self.bits - SIGN_64
        } else {
            self.bits
        }
    }

    pub(crate) fn not_a_number(&self) -> (r: bool)
        ensures
            r == self.is_nan(),
    {
        self.magnitude_bits() > INFINITY_64
    }

    pub(crate) fn rank_of(&self) -> (r: i64)
        ensures
            r == self.rank(),
    {
        let m: i64 = self.magnitude_bits() as i64;
        if self.bits >= SIGN_64 {
            -m
        } else {
            m
        }
    }

    /// Whether `self < other` as numbers.
    pub fn less_than(&self, other: &F64Bits) -> (r: bool)
        ensures
            r == self.lt(other),
            self.bits <= 0x7ff0_0000_0000_0000 && other.bits <= 0x7ff0_0000_0000_0000 ==> r == (self.bits < other.bits),
            0x8000_0000_0000_0000 <= self.bits <= 0xfff0_0000_0000_0000 && 0x8000_0000_0000_0000 <= other.bits <= 0xfff0_0000_0000_0000 ==> r == (self.bits
                > other.bits),
            0x8000_0000_0000_0000 <= self.bits <= 0xfff0_0000_0000_0000 && other.bits <= 0x7ff0_0000_0000_0000 ==> r == !(self.bits == 0x8000_0000_0000_0000 && other.bits == 0),
            self.bits <= 0x7ff0_0000_0000_0000 && 0x8000_0000_0000_0000 <= other.bits <= 0xfff0_0000_0000_0000 ==> !r,
            0x7ff0_0000_0000_0000 < self.bits < 0x8000_0000_0000_0000 || self.bits > 0xfff0_0000_0000_0000 ==> !r,
            0x7ff0_0000_0000_0000 < other.bits < 0x8000_0000_0000_0000 || other.bits > 0xfff0_0000_0000_0000 ==> !r,
    {
        !self.not_a_number() && !other.not_a_number() && self.rank_of() < other.rank_of()
    }

    /// Whether `self <= other` as numbers.
    pub fn at_most(&self, other: &F64Bits) -> (r: bool)
        ensures
            r == self.le(other),
            self.bits <= 0x7ff0_0000_0000_0000 && other.bits <= 0x7ff0_0000_0000_0000 ==> r == (self.bits <= other.bits),
            0x8000_0000_0000_0000 <= self.bits <= 0xfff0_0000_0000_0000 && 0x8000_0000_0000_0000 <= other.bits <= 0xfff0_0000_0000_0000 ==> r == (self.bits
                >= other.bits),
            0x8000_0000_0000_0000 <= self.bits <= 0xfff0_0000_0000_0000 && other.bits <= 0x7ff0_0000_0000_0000 ==> r,
            self.bits <= 0x7ff0_0000_0000_0000 && 0x8000_0000_0000_0000 <= other.bits <= 0xfff0_0000_0000_0000 ==> r == (self.bits == 0 && other.bits == 0x8000_0000_0000_0000),
            0x7ff0_0000_0000_0000 < self.bits < 0x8000_0000_0000_0000 || self.bits > 0xfff0_0000_0000_0000 ==> !r,
            0x7ff0_0000_0000_0000 < other.bits < 0x8000_0000_0000_0000 || other.bits > 0xfff0_0000_0000_0000 ==> !r,
    {
        !self.not_a_number() && !other.not_a_number() && self.rank_of() <= other.rank_of()
    }

    /// Whether `self == other` as numbers.
    pub fn equals(&self, other: &F64Bits) -> (r: bool)
        ensures
            r == self.num_eq(other),
            self.bits <= 0x7ff0_0000_0000_0000 && other.bits <= 0x7ff0_0000_0000_0000 ==> r == (self.bits == other.bits),
            0x8000_0000_0000_0000 <= self.bits <= 0xfff0_0000_0000_0000 && 0x8000_0000_0000_0000 <= other.bits <= 0xfff0_0000_0000_0000 ==> r == (self.bits
                == other.bits),
            0x8000_0000_0000_0000 <= self.bits <= 0xfff0_0000_0000_0000 && other.bits <= 0x7ff0_0000_0000_0000 ==> r == (self.bits == 0x8000_0000_0000_0000 && other.bits == 0),
            self.bits <= 0x7ff0_0000_0000_0000 && 0x8000_0000_0000_0000 <= other.bits <= 0xfff0_0000_0000_0000 ==> r == (self.bits == 0 && other.bits == 0x8000_0000_0000_0000),
            0x7ff0_0000_0000_0000 < self.bits < 0x8000_0000_0000_0000 || self.bits > 0xfff0_0000_0000_0000 ==> !r,
            0x7ff0_0000_0000_0000 < other.bits < 0x8000_0000_0000_0000 || other.bits > 0xfff0_0000_0000_0000 ==> !r,
    {
        !self.not_a_number() && !other.not_a_number() && self.rank_of() == other.rank_of()
    }
}

/// A binary32 value as its bit pattern.
#[derive(Clone, Copy, Debug, PartialEq, Eq, Structural)]
pub struct F32Bits {
    pub bits: u32,
}

/// The sign bit of a binary32 pattern.
pub const SIGN_32: u32 = 0x8000_0000;

/// The magnitude bits of binary32 infinity.
pub const INFINITY_32: u32 = 0x7f80_0000;

impl F32Bits {
    /// The pattern without its sign bit.
    pub open spec fn magnitude(&self) -> int {
        if self.bits >= SIGN_32 {
            self.bits - SIGN_32
        } else {
            self.bits as int
        }
    }

    /// Whether the pattern is not a number.
    pub open spec fn is_nan(&self) -> bool {
        self.magnitude() > INFINITY_32
    }

    /// The place of the value among all numbers.
    pub open spec fn rank(&self) -> int {
        if self.bits >= SIGN_32 {
            -self.magnitude()
        } else {
            self.magnitude()
        }
    }

    /// `self < other` as numbers; false where either is not a number.
    pub open spec fn lt(&self, other: &F32Bits) -> bool {
        !self.is_nan() && !other.is_nan() && self.rank() < other.rank()
    }

    /// `self <= other` as numbers; false where either is not a number.
    pub open spec fn le(&self, other: &F32Bits) -> bool {
        !self.is_nan() && !other.is_nan() && self.rank() <= other.rank()
    }

    fn magnitude_bits(&self) -> (r: u32)
        ensures
            r == self.magnitude(),
            r < SIGN_32,
    {
        if self.bits >= SIGN_32 {
            self.bits - SIGN_32
        } else {
            self.bits
        }
    }

    fn not_a_number(&self) -> (r: bool)
        ensures
            r == self.is_nan(),
    {
        self.magnitude_bits() > INFINITY_32
    }

    fn rank_of(&self) -> (r: i32)
        ensures
            r == self.rank(),
    {
        let m: i32 = self.magnitude_bits() as i32;
        if self.bits >= SIGN_32 {
            -m
        } else {
            m
        }
    }

    /// Whether `self < other` as numbers.
    pub fn less_than(&self, other: &F32Bits) -> (r: bool)
        ensures
            r == self.lt(other),
            self.bits <= 0x7f80_0000 && other.bits <= 0x7f80_0000 ==> r == (self.bits < other.bits),
            0x8000_0000 <= self.bits <= 0xff80_0000 && 0x8000_0000 <= other.bits <= 0xff80_0000 ==> r == (self.bits
                > other.bits),
            0x8000_0000 <= self.bits <= 0xff80_0000 && other.bits <= 0x7f80_0000 ==> r == !(self.bits == 0x8000_0000 && other.bits == 0),
            self.bits <= 0x7f80_0000 && 0x8000_0000 <= other.bits <= 0xff80_0000 ==> !r,
            0x7f80_0000 < self.bits < 0x8000_0000 || self.bits > 0xff80_0000 ==> !r,
            0x7f80_0000 < other.bits < 0x8000_0000 || other.bits > 0xff80_0000 ==> !r,
    {
        !self.not_a_number() && !other.not_a_number() && self.rank_of() < other.rank_of()
    }

    /// Whether `self <= other` as numbers.
    pub fn at_most(&self, other: &F32Bits) -> (r: bool)
        ensures
            r == self.le(other),
            self.bits <= 0x7f80_0000 && other.bits <= 0x7f80_0000 ==> r == (self.bits <= other.bits),
            0x8000_0000 <= self.bits <= 0xff80_0000 && 0x8000_0000 <= other.bits <= 0xff80_0000 ==> r == (self.bits
                >= other.bits),
            0x8000_0000 <= self.bits <= 0xff80_0000 && other.bits <= 0x7f80_0000 ==> r,
            self.bits <= 0x7f80_0000 && 0x8000_0000 <= other.bits <= 0xff80_0000 ==> r == (self.bits == 0 && other.bits == 0x8000_0000),
            0x7f80_0000 < self.bits < 0x8000_0000 || self.bits > 0xff80_0000 ==> !r,
            0x7f80_0000 < other.bits < 0x8000_0000 || other.bits > 0xff80_0000 ==> !r,
    {
        !self.not_a_number() && !other.not_a_number() && self.rank_of() <= other.rank_of()
    }
}

} // verus!
