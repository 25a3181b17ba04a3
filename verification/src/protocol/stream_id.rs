use vstd::prelude::*;
use crate::errors::Error;
use crate::protocol::readable::Readable;
use crate::protocol::writable::Writable;
use crate::protocol::role::Role;
use crate::protocol::stream_type::StreamType;
use crate::protocol::var_int::{VarInt, spec_read_var_int, spec_write_var_int, MAX_VALUE};
use crate::random::thread_random_u64;

verus! {

/// The identifier of a stream within a connection.
#[derive(Debug, Clone, Copy, Eq, PartialEq, Hash, Ord, PartialOrd)]
pub struct StreamId(u64);

/// The flag bit set in the ids of streams that a client opens.
pub const CLIENT: u64 = 0b01;

/// The flag bit set in the ids of unidirectional streams.
pub const UNIDIRECTIONAL: u64 = 0b10;

impl View for StreamId {
    type V = u64;

    closed spec fn view(&self) -> u64 {
        self.0
    }
}

/// The flag bits for a stream opened by `role` with `stream_type`.
pub open spec fn spec_stream_id_flags(role: Role, stream_type: StreamType) -> u64 {
    ((if role == Role::Client { CLIENT } else { 0 }) + (if stream_type == StreamType::Unidirectional {
        UNIDIRECTIONAL
    } else {
        0
    })) as u64
}

impl StreamId {
    /// The id `random | flags`: the random value with the client bit set when a client opens the
    /// stream and the unidirectional bit set for a unidirectional stream.
    pub fn from_random(random: u64, perspective: Role, stream_type: StreamType) -> (r: StreamId)
        ensures
            r@ == random | spec_stream_id_flags(perspective, stream_type),
    {
        let mut flags: u64 = 0;
        if matches!(perspective, Role::Client) {
            flags = CLIENT;
        }
        if matches!(stream_type, StreamType::Unidirectional) {
            flags = flags + UNIDIRECTIONAL;
        }
        StreamId(random | flags)
    }

    /// A new id from a random value of the thread-local generator (see `from_random`).
    pub fn generate(perspective: Role, stream_type: StreamType) -> (r: StreamId)
        ensures
            exists|random: u64| r@ == random | spec_stream_id_flags(perspective, stream_type),
    {
        let random = thread_random_u64();
        Self::from_random(random, perspective, stream_type)
    }

    pub fn first_server_stream_id() -> (r: Self)
        ensures
            r@ == 2,
    {
        StreamId(2)
    }

    pub fn first_client_stream_id() -> (r: Self)
        ensures
            r@ == 1,
    {
        StreamId(1)
    }

    pub fn crypto_stream_id() -> (r: Self)
        ensures
            r@ == 0,
    {
        StreamId(0)
    }

    pub fn is_crypto_stream(self) -> (r: bool)
        ensures
            r == (self@ == 0),
    {
        self.0 == 0
    }

    /// The side that opened the stream: even ids are taken as the client's, odd ones as the
    /// server's.
    pub fn initiator(self) -> (r: Role)
        ensures
            r == (if self@ % 2 == 0 { Role::Client } else { Role::Server }),
    {
        if self.0 % 2 == 0 {
            Role::Client
        } else {
            Role::Server
        }
    }

    pub fn is_server_initiated(self) -> (r: bool)
        ensures
            r == (self@ % 2 == 1),
    {
        matches!(self.initiator(), Role::Server)
    }

    pub fn is_client_initiated(self) -> (r: bool)
        ensures
            r == (self@ % 2 == 0),
    {
        matches!(self.initiator(), Role::Client)
    }

    /// Ids with the `0x2` bit clear are bidirectional, the others unidirectional.
    pub fn stream_type(self) -> (r: StreamType)
        ensures
            r == (if self@ & 0x2 == 0 { StreamType::Bidirectional } else { StreamType::Unidirectional }),
    {
        if self.0 & 0x2 == 0 {
            StreamType::Bidirectional
        } else {
            StreamType::Unidirectional
        }
    }

    pub fn is_unidirectional(self) -> (r: bool)
        ensures
            r == (self@ & 0x2 != 0),
    {
        matches!(self.stream_type(), StreamType::Unidirectional)
    }

    pub fn is_bidirectional(self) -> (r: bool)
        ensures
            r == (self@ & 0x2 == 0),
    {
        matches!(self.stream_type(), StreamType::Bidirectional)
    }

    /// The id two further on, which has the same initiator.
    pub fn next(self) -> (r: Self)
        requires
            self@ + 2 <= u64::MAX,
        ensures
            r@ == self@ + 2,
    {
        StreamId(self.0 + 2)
    }

    /// The id with the given value.
    pub fn from_u64(value: u64) -> (r: Self)
        ensures
            r@ == value,
    {
        StreamId(value)
    }

    /// The value of the id.
    pub fn into_inner(self) -> (r: u64)
        ensures
            r == self@,
    {
        self.0
    }
}

impl Readable for StreamId {
    open spec fn spec_read(bytes: Seq<u8>) -> Result<(u64, nat), Error> {
        spec_read_var_int(bytes)
    }

    proof fn lemma_read_bounds(bytes: Seq<u8>) {
    }

    fn read(bytes: &[u8]) -> (res: Result<(StreamId, usize), Error>) {
        match VarInt::read(bytes) {
            Ok((var_int, n)) => Ok((StreamId(var_int.into_inner()), n)),
            Err(e) => Err(e),
        }
    }
}

/// A stream id is written as a variable-length integer; one above 2^62 - 1 cannot be written.
impl Writable for StreamId {
    open spec fn spec_write(value: u64) -> Result<Seq<u8>, Error> {
        spec_write_var_int(value)
    }

    open spec fn write_requires(value: u64) -> bool {
        true
    }

    fn write(&self, out: &mut Vec<u8>) -> (res: Result<(), Error>) {
        let var_int = match VarInt::value_from(self.0) {
            Ok(var_int) => var_int,
            Err(e) => {
                return Err(e);
            },
        };
        var_int.write(out)
    }
}

/// The id `from_random` gives keeps the random value's bits above the two flag bits, has the low
/// bit 0b01 set exactly when a client opens the stream or the random value has it, and the bit
/// 0b10 set exactly when the stream is unidirectional or the random value has it. So with a
/// random value whose two low bits are clear, the id's type is the requested one, and its low bit
/// tells whether a client opened it.
pub proof fn lemma_stream_id_flags(random: u64, role: Role, stream_type: StreamType)
    ensures
        ({
            let id = random | spec_stream_id_flags(role, stream_type);
            &&& (id & 1 == 1) == (role == Role::Client || random & 1 == 1)
            &&& (id & 2 == 2) == (stream_type == StreamType::Unidirectional || random & 2 == 2)
            &&& id >> 2 == random >> 2
            &&& random & 2 == 0 ==> ((id & 2 == 0) == (stream_type == StreamType::Bidirectional))
        }),
{
    let flags = spec_stream_id_flags(role, stream_type);
    assert(flags <= 3);
    assert(((random | flags) & 1 == 1) == (flags & 1 == 1 || random & 1 == 1)
        && ((random | flags) & 2 == 2) == (flags & 2 == 2 || random & 2 == 2)
        && (random | flags) >> 2 == random >> 2
        && ((random | flags) & 2 == 0) == !((random | flags) & 2 == 2)) by (bit_vector)
        requires
            flags <= 3,
    ;
    assert((flags & 1 == 1) == (flags == 1 || flags == 3) && (flags & 2 == 2) == (flags == 2 || flags == 3)) by (bit_vector)
        requires
            flags <= 3,
    ;
}

} // verus!
