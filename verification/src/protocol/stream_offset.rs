use vstd::prelude::*;
use crate::errors::Error;
use crate::protocol::readable::Readable;
use crate::protocol::writable::Writable;
use crate::protocol::var_int::{VarInt, spec_read_var_int, spec_write_var_int, MAX_VALUE};

verus! {

/// An offset into the data of a stream.
#[derive(Debug, Clone, Copy, Eq, PartialEq, Hash, Ord, PartialOrd)]
pub struct StreamOffset(pub VarInt);

impl View for StreamOffset {
    type V = u64;

    open spec fn view(&self) -> u64 {
        self.0@
    }
}

impl StreamOffset {
    pub fn into_inner(self) -> (r: VarInt)
        ensures
            r@ == self@,
    {
        self.0
    }

    pub fn is_zero(self) -> (r: bool)
        ensures
            r == (self@ == 0),
    {
        self.0.into_inner() == 0
    }

    /// The offset `self + rhs`; the sum must fit in a variable-length integer.
    pub fn add(self, rhs: VarInt) -> (r: StreamOffset)
        requires
            self@ + rhs@ <= MAX_VALUE,
        ensures
            r@ == self@ + rhs@,
    {
        match self.0.checked_add(rhs) {
            Ok(sum) => StreamOffset(sum),
            Err(_) => self,
        }
    }

    /// Moves the offset on by `rhs`; the sum must fit in a variable-length integer.
    pub fn add_assign(&mut self, rhs: VarInt)
        requires
            old(self)@ + rhs@ <= MAX_VALUE,
        ensures
            final(self)@ == old(self)@ + rhs@,
    {
        let current = *self;
        *self = current.add(rhs);
    }

    pub fn from_var_int(value: VarInt) -> (r: StreamOffset)
        ensures
            r@ == value@,
    {
        StreamOffset(value)
    }

    pub fn from_u32(value: u32) -> (r: StreamOffset)
        ensures
            r@ == value,
    {
        StreamOffset(VarInt::from_u32(value))
    }
}

impl Readable for StreamOffset {
    open spec fn spec_read(bytes: Seq<u8>) -> Result<(u64, nat), Error> {
        spec_read_var_int(bytes)
    }

    proof fn lemma_read_bounds(bytes: Seq<u8>) {
    }

    fn read(bytes: &[u8]) -> (res: Result<(StreamOffset, usize), Error>) {
        match VarInt::read(bytes) {
            Ok((var_int, n)) => Ok((StreamOffset(var_int), n)),
            Err(e) => Err(e),
        }
    }
}

impl Writable for StreamOffset {
    open spec fn spec_write(value: u64) -> Result<Seq<u8>, Error> {
        spec_write_var_int(value)
    }

    open spec fn write_requires(value: u64) -> bool {
        true
    }

    fn write(&self, out: &mut Vec<u8>) -> (res: Result<(), Error>) {
        self.0.write(out)
    }
}

} // verus!
