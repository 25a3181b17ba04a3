use vstd::prelude::*;
use crate::primitives::u24::U24;
use crate::primitives::u48::U48;

verus! {

/// A trait for getting the absolute delta between two values.
pub trait AbsDelta<RHS = Self>: Sized {
    /// The type of the delta.
    type Delta;

    /// Gets the absolute delta between `self` and `rhs`.
    fn abs_delta(self, rhs: RHS) -> Self::Delta;
}

impl AbsDelta for u64 {
    type Delta = u64;

    fn abs_delta(self, rhs: Self) -> (r: u64)
        ensures
            r == (if self > rhs { self - rhs } else { rhs - self }),
    {
        if self > rhs {
            self - rhs
        } else {
            rhs - self
        }
    }
}

impl AbsDelta for u32 {
    type Delta = u32;

    fn abs_delta(self, rhs: Self) -> (r: u32)
        ensures
            r == (if self > rhs { self - rhs } else { rhs - self }),
    {
        if self > rhs {
            self - rhs
        } else {
            rhs - self
        }
    }
}

impl AbsDelta for u16 {
    type Delta = u16;

    fn abs_delta(self, rhs: Self) -> (r: u16)
        ensures
            r == (if self > rhs { self - rhs } else { rhs - self }),
    {
        if self > rhs {
            self - rhs
        } else {
            rhs - self
        }
    }
}

impl AbsDelta for u8 {
    type Delta = u8;

    fn abs_delta(self, rhs: Self) -> (r: u8)
        ensures
            r == (if self > rhs { self - rhs } else { rhs - self }),
    {
        if self > rhs {
            self - rhs
        } else {
            rhs - self
        }
    }
}

impl AbsDelta for usize {
    type Delta = usize;

    fn abs_delta(self, rhs: Self) -> (r: usize)
        ensures
            r == (if self > rhs { self - rhs } else { rhs - self }),
    {
        if self > rhs {
            self - rhs
        } else {
            rhs - self
        }
    }
}

impl AbsDelta for U48 {
    type Delta = U48;

    fn abs_delta(self, rhs: Self) -> (r: U48)
        ensures
            r@ == (if self@ > rhs@ { self@ - rhs@ } else { rhs@ - self@ }),
    {
        if self.gt(rhs) {
            self.sub(rhs)
        } else {
            rhs.sub(self)
        }
    }
}

impl AbsDelta for U24 {
    type Delta = U24;

    fn abs_delta(self, rhs: Self) -> (r: U24)
        ensures
            r@ == (if self@ > rhs@ { self@ - rhs@ } else { rhs@ - self@ }),
    {
        if self.gt(rhs) {
            self.sub(rhs)
        } else {
            rhs.sub(self)
        }
    }
}

/// The difference of the two values when they have the same sign; when one is negative and the
/// other is not, the subtraction of their two's complement bit patterns overflows and the delta
/// saturates at `u64::MAX`.
impl AbsDelta for i64 {
    type Delta = u64;

    fn abs_delta(self, rhs: Self) -> (r: u64)
        ensures
            r == (if (self < 0) != (rhs < 0) {
                u64::MAX as int
            } else if self > rhs {
                self - rhs
            } else {
                rhs - self
            }),
    {
        let (min, max) = if self > rhs { (rhs, self) } else { (self, rhs) };
        if (min < 0) != (max < 0) {
            u64::MAX
        } else {
            (max - min) as u64
        }
    }
}

/// The difference of the two values when they have the same sign; when one is negative and the
/// other is not, the subtraction of their two's complement bit patterns overflows and the delta
/// saturates at `u32::MAX`.
impl AbsDelta for i32 {
    type Delta = u32;

    fn abs_delta(self, rhs: Self) -> (r: u32)
        ensures
            r == (if (self < 0) != (rhs < 0) {
                u32::MAX as int
            } else if self > rhs {
                self - rhs
            } else {
                rhs - self
            }),
    {
        let (min, max) = if self > rhs { (rhs, self) } else { (self, rhs) };
        if (min < 0) != (max < 0) {
            u32::MAX
        } else {
            (max - min) as u32
        }
    }
}

/// The difference of the two values when they have the same sign; when one is negative and the
/// other is not, the subtraction of their two's complement bit patterns overflows and the delta
/// saturates at `u16::MAX`.
impl AbsDelta for i16 {
    type Delta = u16;

    fn abs_delta(self, rhs: Self) -> (r: u16)
        ensures
            r == (if (self < 0) != (rhs < 0) {
                u16::MAX as int
            } else if self > rhs {
                self - rhs
            } else {
                rhs - self
            }),
    {
        let (min, max) = if self > rhs { (rhs, self) } else { (self, rhs) };
        if (min < 0) != (max < 0) {
            u16::MAX
        } else {
            (max - min) as u16
        }
    }
}

/// The difference of the two values when they have the same sign; when one is negative and the
/// other is not, the subtraction of their two's complement bit patterns overflows and the delta
/// saturates at `u8::MAX`.
impl AbsDelta for i8 {
    type Delta = u8;

    fn abs_delta(self, rhs: Self) -> (r: u8)
        ensures
            r == (if (self < 0) != (rhs < 0) {
                u8::MAX as int
            } else if self > rhs {
                self - rhs
            } else {
                rhs - self
            }),
    {
        let (min, max) = if self > rhs { (rhs, self) } else { (self, rhs) };
        if (min < 0) != (max < 0) {
            u8::MAX
        } else {
            (max - min) as u8
        }
    }
}

/// The difference of the two values when they have the same sign; when one is negative and the
/// other is not, the subtraction of their two's complement bit patterns overflows and the delta
/// saturates at `usize::MAX`.
impl AbsDelta for isize {
    type Delta = usize;

    fn abs_delta(self, rhs: Self) -> (r: usize)
        ensures
            r == (if (self < 0) != (rhs < 0) {
                usize::MAX as int
            } else if self > rhs {
                self - rhs
            } else {
                rhs - self
            }),
    {
        let (min, max) = if self > rhs { (rhs, self) } else { (self, rhs) };
        if (min < 0) != (max < 0) {
            usize::MAX
        } else {
            (max - min) as usize
        }
    }
}

} // verus!
