//! Scores. A score is a double-precision number, held here by its IEEE 754 bit
//! pattern; the library orders scores and carries them, and leaves arithmetic on
//! them to its callers.

use vstd::prelude::*;

verus! {

/// A double-precision number, by its bit pattern.
#[derive(Debug, Clone, Copy, PartialEq, Eq, Structural)]
pub struct Score {
    pub bits: u64,
}

/// The bit pattern of 1.
pub const ONE: u64 = 0x3ff0_0000_0000_0000;

/// The bit pattern of infinity: a pattern above it, sign aside, is not a number.
pub const INFINITY: u64 = 0x7ff0_0000_0000_0000;

/// The sign bit.
pub const SIGN: u64 = 0x8000_0000_0000_0000;

impl Score {
    /// Whether the pattern stands for no number.
    pub open spec fn is_nan(self) -> bool {
        self.bits % SIGN > INFINITY
    }

    /// An integer in whose order the numbers stand. Both zeros have the same.
    pub open spec fn rank(self) -> int {
        if self.bits < SIGN {
            self.bits as int
        } else {
            SIGN - self.bits
        }
    }

    /// The number is greater than the other. Nothing compares to what is no number.
    pub open spec fn above(self, other: Score) -> bool {
        !self.is_nan() && !other.is_nan() && self.rank() > other.rank()
    }

    /// Whether the number is greater than the other.
    pub fn exceeds(&self, other: &Score) -> (r: bool)
        ensures
            r == self.above(*other),
    {
        let a: u64 = self.bits;
        let b: u64 = other.bits;
        if a % SIGN > INFINITY || b % SIGN > INFINITY {
            return false;
        }
        if a < SIGN && b < SIGN {
            a > b
        } else if a >= SIGN && b >= SIGN {
            a < b
        } else if a < SIGN {
            a > 0 || b > SIGN
        } else {
            false
        }
    }
}

} // verus!
