use vstd::prelude::*;
use vstd::std_specs::convert::FromSpecImpl;
use crate::primitives::PosOverflow;

verus! {

/// The largest value a `U24` can hold.
pub const MAX_VALUE: u32 = 0xff_ff_ff;

/// An unsigned 24-bit integer.
#[derive(Debug, Clone, Copy, PartialEq, Eq, Hash, PartialOrd, Ord)]
pub struct U24(u32);

impl View for U24 {
    type V = u32;

    closed spec fn view(&self) -> u32 {
        self.0
    }
}

impl U24 {
    #[verifier::type_invariant]
    spec fn fits(self) -> bool {
        self.0 <= MAX_VALUE
    }

    pub(crate) fn from_u32_unchecked(value: u32) -> (r: U24)
        requires
            value <= MAX_VALUE,
        ensures
            r@ == value,
    {
        U24(value)
    }

    /// The largest `U24`: 2^24 - 1.
    pub fn max_value() -> (r: U24)
        ensures
            r@ == MAX_VALUE,
    {
        U24(MAX_VALUE)
    }

    /// The smallest `U24`: 0.
    pub fn min_value() -> (r: U24)
        ensures
            r@ == 0,
    {
        U24(0)
    }

    /// The saturation bound above (the same as `max_value`).
    pub fn saturated_max() -> (r: U24)
        ensures
            r@ == MAX_VALUE,
    {
        Self::max_value()
    }

    /// The saturation bound below (the same as `min_value`).
    pub fn saturated_min() -> (r: U24)
        ensures
            r@ == 0,
    {
        Self::min_value()
    }

    /// The value as a `u32`.
    pub fn into_u32(self) -> (r: u32)
        ensures
            r == self@,
            r <= MAX_VALUE,
    {
        proof {
            use_type_invariant(&self);
        }
        self.0
    }

    /// The value as a `u64`.
    pub fn into_u64(self) -> (r: u64)
        ensures
            r == self@,
            r <= MAX_VALUE,
    {
        self.into_u32() as u64
    }

    pub fn from_u8(value: u8) -> (r: U24)
        ensures
            r@ == value,
    {
        U24(value as u32)
    }

    pub fn from_u16(value: u16) -> (r: U24)
        ensures
            r@ == value,
    {
        U24(value as u32)
    }

    /// Converts a `u32`, failing when it does not fit in 24 bits.
    pub fn try_from_u32(value: u32) -> (r: Result<U24, PosOverflow<u32>>)
        ensures
            value <= MAX_VALUE ==> (r matches Ok(v) && v@ == value),
            value > MAX_VALUE ==> r == Err::<U24, PosOverflow<u32>>(PosOverflow(value)),
    {
        if value > MAX_VALUE {
            Err(PosOverflow(value))
        } else {
            Ok(U24(value))
        }
    }

    /// Converts a `u64`, failing when it does not fit in 24 bits.
    pub fn try_from_u64(value: u64) -> (r: Result<U24, PosOverflow<u64>>)
        ensures
            value <= MAX_VALUE ==> (r matches Ok(v) && v@ == value),
            value > MAX_VALUE ==> r == Err::<U24, PosOverflow<u64>>(PosOverflow(value)),
    {
        if value > MAX_VALUE as u64 {
            Err(PosOverflow(value))
        } else {
            Ok(U24(value as u32))
        }
    }

    /// Converts a `u32`, saturating at the largest `U24` when it does not fit.
    pub fn approx_from_u32(value: u32) -> (r: U24)
        ensures
            r@ == if value > MAX_VALUE { MAX_VALUE } else { value },
    {
        if value > MAX_VALUE {
            Self::max_value()
        } else {
            U24(value)
        }
    }

    /// Converts a `u64`, saturating at the largest `U24` when it does not fit.
    pub fn approx_from_u64(value: u64) -> (r: U24)
        ensures
            r@ == if value > MAX_VALUE { MAX_VALUE as u64 } else { value },
    {
        if value > MAX_VALUE as u64 {
            Self::max_value()
        } else {
            U24(value as u32)
        }
    }

    /// Converts to a `u8`, failing when the value does not fit.
    pub fn try_into_u8(self) -> (r: Result<u8, PosOverflow<U24>>)
        ensures
            self@ <= 0xff ==> r == Ok::<u8, PosOverflow<U24>>(self@ as u8),
            self@ > 0xff ==> r == Err::<u8, PosOverflow<U24>>(PosOverflow(self)),
    {
        if self.0 > 0xff {
            Err(PosOverflow(self))
        } else {
            Ok(self.0 as u8)
        }
    }

    /// Converts to a `u16`, failing when the value does not fit.
    pub fn try_into_u16(self) -> (r: Result<u16, PosOverflow<U24>>)
        ensures
            self@ <= 0xffff ==> r == Ok::<u16, PosOverflow<U24>>(self@ as u16),
            self@ > 0xffff ==> r == Err::<u16, PosOverflow<U24>>(PosOverflow(self)),
    {
        if self.0 > 0xffff {
            Err(PosOverflow(self))
        } else {
            Ok(self.0 as u16)
        }
    }

    /// The difference `self - rhs`; `rhs` must not exceed `self`.
    pub fn sub(self, rhs: U24) -> (r: U24)
        requires
            rhs@ <= self@,
        ensures
            r@ == self@ - rhs@,
    {
        proof {
            use_type_invariant(&self);
        }
        U24(self.0 - rhs.0)
    }

    /// Whether `self` is greater than `rhs`.
    pub fn gt(self, rhs: U24) -> (r: bool)
        ensures
            r == (self@ > rhs@),
    {
        self.0 > rhs.0
    }
}

impl From<u8> for U24 {
    fn from(value: u8) -> (r: U24) {
        U24(value as u32)
    }
}

impl FromSpecImpl<u8> for U24 {
    open spec fn obeys_from_spec() -> bool {
        true
    }

    closed spec fn from_spec(v: u8) -> U24 {
        U24(v as u32)
    }
}

impl From<u16> for U24 {
    fn from(value: u16) -> (r: U24) {
        U24(value as u32)
    }
}

impl FromSpecImpl<u16> for U24 {
    open spec fn obeys_from_spec() -> bool {
        true
    }

    closed spec fn from_spec(v: u16) -> U24 {
        U24(v as u32)
    }
}

} // verus!
