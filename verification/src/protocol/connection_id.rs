use vstd::prelude::*;
use crate::errors::Error;
use crate::protocol::readable::Readable;
use crate::protocol::writable::Writable;
use crate::random::os_random_bytes_18;

verus! {

/// The number of bytes in a connection id.
pub const CONNECTION_ID_LEN: usize = 18;

/// A unique identifier for a connection.
/// This will always be required when communicating with the server to identify the client however
/// it is not required when the server communicates with the client as the client can identify the
/// server purely based upon the port opened.
#[derive(Debug, Copy, Clone, Hash, Eq, PartialEq)]
pub struct ConnectionId(pub [u8; 18]);

impl View for ConnectionId {
    type V = Seq<u8>;

    open spec fn view(&self) -> Seq<u8> {
        self.0@
    }
}

/// What reading a connection id from the front of `bytes` gives: the first (at most) eighteen
/// bytes, right-aligned behind zeros.
pub open spec fn spec_read_connection_id(bytes: Seq<u8>) -> (Seq<u8>, nat) {
    let taken: nat = if bytes.len() < 18 { bytes.len() } else { 18 };
    (Seq::new((18 - taken) as nat, |i: int| 0u8) + bytes.take(taken as int), taken)
}

/// Writing a connection id and reading it back gives the connection id and the eighteen bytes
/// written, whatever follows it.
pub proof fn lemma_connection_id_round_trip(id: Seq<u8>, rest: Seq<u8>)
    requires
        id.len() == 18,
    ensures
        ConnectionId::spec_write(id) == Ok::<Seq<u8>, Error>(id),
        ConnectionId::spec_read(id + rest) == Ok::<(Seq<u8>, nat), Error>((id, 18)),
{
    assert(Seq::new(0, |i: int| 0u8) + (id + rest).take(18) =~= id);
}

impl ConnectionId {
    /// The connection id with the given bytes.
    pub fn new(bytes: [u8; 18]) -> (r: ConnectionId)
        ensures
            r@ == bytes@,
    {
        ConnectionId(bytes)
    }

    /// A connection id of eighteen bytes from the operating system's cryptographic random number
    /// generator, or the error that the generator could not be created.
    pub fn generate() -> (r: Result<ConnectionId, Error>)
        ensures
            r matches Err(e) ==> e == Error::FailedToCreateCryptographicRandomNumberGenerator,
            r matches Ok(id) ==> id@.len() == 18,
    {
        match os_random_bytes_18() {
            Some(bytes) => Ok(ConnectionId(bytes)),
            None => Err(Error::FailedToCreateCryptographicRandomNumberGenerator),
        }
    }

    /// The bytes of the connection id.
    pub fn bytes(&self) -> (r: &[u8])
        ensures
            r@ == self@,
    {
        self.0.as_slice()
    }
}

impl Readable for ConnectionId {
    /// A connection id takes up at most eighteen bytes; fewer are right-aligned behind zeros.
    open spec fn spec_read(bytes: Seq<u8>) -> Result<(Seq<u8>, nat), Error> {
        Ok(spec_read_connection_id(bytes))
    }

    proof fn lemma_read_bounds(bytes: Seq<u8>) {
    }

    fn read(bytes: &[u8]) -> (res: Result<(ConnectionId, usize), Error>) {
        let taken: usize = if bytes.len() < 18 {
            bytes.len()
        } else {
            18
        };
        let mut inner = [0u8; 18];
        let start_offset = 18 - taken;
        let ghost expected = spec_read_connection_id(bytes@).0;
        let mut i: usize = 0;
        while i < taken
            invariant
                taken <= bytes@.len(),
                taken <= 18,
                taken == spec_read_connection_id(bytes@).1,
                start_offset == 18 - taken,
                i <= taken,
                expected == spec_read_connection_id(bytes@).0,
                expected.len() == 18,
                forall|j: int| 0 <= j < start_offset + i ==> inner@[j] == expected[j],
                forall|j: int| start_offset + i <= j < 18 ==> inner@[j] == 0,
            decreases taken - i,
        {
            inner[start_offset + i] = bytes[i];
            i = i + 1;
        }
        proof {
            assert(inner@ =~= expected);
        }
        Ok((ConnectionId(inner), taken))
    }
}

impl Writable for ConnectionId {
    open spec fn spec_write(value: Seq<u8>) -> Result<Seq<u8>, Error> {
        Ok(value)
    }

    open spec fn write_requires(value: Seq<u8>) -> bool {
        true
    }

    fn write(&self, out: &mut Vec<u8>) -> (res: Result<(), Error>) {
        out.extend_from_slice(self.0.as_slice());
        proof {
            assert(out@ =~= old(out)@ + self@);
        }
        Ok(())
    }
}

} // verus!
