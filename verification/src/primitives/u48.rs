use vstd::prelude::*;
use vstd::std_specs::convert::FromSpecImpl;
use crate::primitives::PosOverflow;

verus! {

/// The largest value a `U48` can hold.
pub const MAX_VALUE: u64 = 0xff_ff_ff_ff_ff_ff;

/// An unsigned 48-bit integer.
#[derive(Debug, Clone, Copy, PartialEq, Eq, Hash, PartialOrd, Ord)]
pub struct U48(u64);

impl View for U48 {
    type V = u64;

    closed spec fn view(&self) -> u64 {
        self.0
    }
}

impl U48 {
    #[verifier::type_invariant]
    spec fn fits(self) -> bool {
        self.0 <= MAX_VALUE
    }

    pub(crate) fn from_u64_unchecked(value: u64) -> (r: U48)
        requires
            value <= MAX_VALUE,
        ensures
            r@ == value,
    {
        U48(value)
    }

    /// The largest `U48`: 2^48 - 1.
    pub fn max_value() -> (r: U48)
        ensures
            r@ == MAX_VALUE,
    {
        U48(MAX_VALUE)
    }

    /// The smallest `U48`: 0.
    pub fn min_value() -> (r: U48)
        ensures
            r@ == 0,
    {
        U48(0)
    }

    /// The saturation bound above (the same as `max_value`).
    pub fn saturated_max() -> (r: U48)
        ensures
            r@ == MAX_VALUE,
    {
        Self::max_value()
    }

    /// The saturation bound below (the same as `min_value`).
    pub fn saturated_min() -> (r: U48)
        ensures
            r@ == 0,
    {
        Self::min_value()
    }

    /// The value as a `u64`.
    pub fn into_u64(self) -> (r: u64)
        ensures
            r == self@,
            r <= MAX_VALUE,
    {
        proof {
            use_type_invariant(&self);
        }
        self.0
    }

    pub fn from_u8(value: u8) -> (r: U48)
        ensures
            r@ == value,
    {
        U48(value as u64)
    }

    pub fn from_u16(value: u16) -> (r: U48)
        ensures
            r@ == value,
    {
        U48(value as u64)
    }

    pub fn from_u32(value: u32) -> (r: U48)
        ensures
            r@ == value,
    {
        U48(value as u64)
    }

    /// Converts a `u64`, failing when it does not fit in 48 bits.
    pub fn try_from_u64(value: u64) -> (r: Result<U48, PosOverflow<u64>>)
        ensures
            value <= MAX_VALUE ==> (r matches Ok(v) && v@ == value),
            value > MAX_VALUE ==> r == Err::<U48, PosOverflow<u64>>(PosOverflow(value)),
    {
        if value > MAX_VALUE {
            Err(PosOverflow(value))
        } else {
            Ok(U48(value))
        }
    }

    /// Converts a `u64`, saturating at the largest `U48` when it does not fit.
    pub fn approx_from_u64(value: u64) -> (r: U48)
        ensures
            r@ == if value > MAX_VALUE { MAX_VALUE } else { value },
    {
        if value > MAX_VALUE {
            Self::max_value()
        } else {
            U48(value)
        }
    }

    /// Converts to a `u8`, failing when the value does not fit.
    pub fn try_into_u8(self) -> (r: Result<u8, PosOverflow<U48>>)
        ensures
            self@ <= 0xff ==> r == Ok::<u8, PosOverflow<U48>>(self@ as u8),
            self@ > 0xff ==> r == Err::<u8, PosOverflow<U48>>(PosOverflow(self)),
    {
        if self.0 > 0xff {
            Err(PosOverflow(self))
        } else {
            Ok(self.0 as u8)
        }
    }

    /// Converts to a `u16`, failing when the value does not fit.
    pub fn try_into_u16(self) -> (r: Result<u16, PosOverflow<U48>>)
        ensures
            self@ <= 0xffff ==> r == Ok::<u16, PosOverflow<U48>>(self@ as u16),
            self@ > 0xffff ==> r == Err::<u16, PosOverflow<U48>>(PosOverflow(self)),
    {
        if self.0 > 0xffff {
            Err(PosOverflow(self))
        } else {
            Ok(self.0 as u16)
        }
    }

    /// Converts to a `u32`, failing when the value does not fit.
    pub fn try_into_u32(self) -> (r: Result<u32, PosOverflow<U48>>)
        ensures
            self@ <= 0xffff_ffff ==> r == Ok::<u32, PosOverflow<U48>>(self@ as u32),
            self@ > 0xffff_ffff ==> r == Err::<u32, PosOverflow<U48>>(PosOverflow(self)),
    {
        if self.0 > 0xffff_ffff {
            Err(PosOverflow(self))
        } else {
            Ok(self.0 as u32)
        }
    }

    /// The difference `self - rhs`; `rhs` must not exceed `self`.
    pub fn sub(self, rhs: U48) -> (r: U48)
        requires
            rhs@ <= self@,
        ensures
            r@ == self@ - rhs@,
    {
        proof {
            use_type_invariant(&self);
        }
        U48(self.0 - rhs.0)
    }

    /// Whether `self` is greater than `rhs`.
    pub fn gt(self, rhs: U48) -> (r: bool)
        ensures
            r == (self@ > rhs@),
    {
        self.0 > rhs.0
    }
}

impl From<u8> for U48 {
    fn from(value: u8) -> (r: U48) {
        U48(value as u64)
    }
}

impl FromSpecImpl<u8> for U48 {
    open spec fn obeys_from_spec() -> bool {
        true
    }

    closed spec fn from_spec(v: u8) -> U48 {
        U48(v as u64)
    }
}

impl From<u16> for U48 {
    fn from(value: u16) -> (r: U48) {
        U48(value as u64)
    }
}

impl FromSpecImpl<u16> for U48 {
    open spec fn obeys_from_spec() -> bool {
        true
    }

    closed spec fn from_spec(v: u16) -> U48 {
        U48(v as u64)
    }
}

impl From<u32> for U48 {
    fn from(value: u32) -> (r: U48) {
        U48(value as u64)
    }
}

impl FromSpecImpl<u32> for U48 {
    open spec fn obeys_from_spec() -> bool {
        true
    }

    closed spec fn from_spec(v: u32) -> U48 {
        U48(v as u64)
    }
}

} // verus!
