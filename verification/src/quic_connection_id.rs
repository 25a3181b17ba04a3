use vstd::prelude::*;
use crate::errors::Error;
use crate::primitives::byte_order_primitives::{
    le_bytes, le_value, le_read_uint, le_write_uint, lemma_le_value_bound, lemma_pow256_values,
};
use crate::protocol::readable::Readable;
use crate::protocol::writable::Writable;
use crate::random::thread_random_u64;

verus! {

/// A unique identifier for a connection in the older QUIC layout.
/// This will always be required when communicating with the server to identify the client however
/// it is not required when the server communicates with the client as the client can identify the
/// server purely based upon the port opened.
#[derive(Debug, Copy, Clone, Hash, Eq, PartialEq)]
pub struct QuicConnectionId(pub u64);

impl View for QuicConnectionId {
    type V = u64;

    open spec fn view(&self) -> u64 {
        self.0
    }
}

impl QuicConnectionId {
    /// A connection id drawn from the thread's random number generator.
    pub fn generate() -> (r: QuicConnectionId) {
        QuicConnectionId(thread_random_u64())
    }
}

impl Readable for QuicConnectionId {
    /// A connection id is its first eight bytes, least significant first.
    open spec fn spec_read(bytes: Seq<u8>) -> Result<(u64, nat), Error> {
        if bytes.len() >= 8 {
            Ok((le_value(bytes.take(8)) as u64, 8))
        } else {
            Err(Error::FailedToReadU64)
        }
    }

    proof fn lemma_read_bounds(bytes: Seq<u8>) {
    }

    fn read(bytes: &[u8]) -> (res: Result<(QuicConnectionId, usize), Error>) {
        if bytes.len() >= 8 {
            Ok((QuicConnectionId(le_read_uint(bytes, 8)), 8))
        } else {
            Err(Error::FailedToReadU64)
        }
    }
}

impl Writable for QuicConnectionId {
    open spec fn spec_write(value: u64) -> Result<Seq<u8>, Error> {
        Ok(le_bytes(value as nat, 8))
    }

    open spec fn write_requires(value: u64) -> bool {
        true
    }

    fn write(&self, out: &mut Vec<u8>) -> (res: Result<(), Error>) {
        proof {
            lemma_pow256_values();
        }
        let mut bytes = le_write_uint(self.0, 8);
        out.append(&mut bytes);
        Ok(())
    }
}

} // verus!
