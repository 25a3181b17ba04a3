use vstd::prelude::*;
use crate::errors::Error;
use crate::protocol::readable::Readable;
use crate::protocol::writable::Writable;

verus! {

/// A version of the older QUIC layout.
#[derive(Debug, Copy, Clone, Hash, PartialEq, Eq, PartialOrd, Ord)]
pub struct QuicVersion(pub u32);

impl View for QuicVersion {
    type V = QuicVersion;

    open spec fn view(&self) -> QuicVersion {
        *self
    }
}

impl QuicVersion {
    /// The first IETF draft version.
    pub fn draft_ietf_01() -> (r: QuicVersion)
        ensures
            r == QuicVersion(0x100000FF),
    {
        QuicVersion(0x100000FF)
    }
}

impl Readable for QuicVersion {
    open spec fn spec_read(bytes: Seq<u8>) -> Result<(QuicVersion, nat), Error> {
        match u32::spec_read(bytes) {
            Ok((value, n)) => Ok((QuicVersion(value), n)),
            Err(e) => Err(e),
        }
    }

    proof fn lemma_read_bounds(bytes: Seq<u8>) {
    }

    fn read(bytes: &[u8]) -> (res: Result<(QuicVersion, usize), Error>) {
        match u32::read(bytes) {
            Ok((value, n)) => Ok((QuicVersion(value), n)),
            Err(e) => Err(e),
        }
    }
}

impl Writable for QuicVersion {
    open spec fn spec_write(value: QuicVersion) -> Result<Seq<u8>, Error> {
        u32::spec_write(value.0)
    }

    open spec fn write_requires(value: QuicVersion) -> bool {
        true
    }

    fn write(&self, out: &mut Vec<u8>) -> (res: Result<(), Error>) {
        self.0.write(out)
    }
}

} // verus!
