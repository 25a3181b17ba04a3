use vstd::prelude::*;
use crate::errors::Error;

verus! {

/// The number of bytes in a diversification nonce.
pub const DIVERSIFICATION_NONCE_LEN: usize = 32;

/// The nonce a server sends in its public headers so that the client can diversify its keys.
#[derive(Debug, Copy, Clone, Eq, PartialEq, Hash)]
pub struct DiversificationNonce(pub [u8; 32]);

impl View for DiversificationNonce {
    type V = Seq<u8>;

    open spec fn view(&self) -> Seq<u8> {
        self.0@
    }
}

/// What reading a diversification nonce from the front of `bytes` gives: its thirty-two bytes.
pub open spec fn spec_read_diversification_nonce(bytes: Seq<u8>) -> Result<(Seq<u8>, nat), Error> {
    if bytes.len() < 32 {
        Err(Error::FailedToReadBytes)
    } else {
        Ok((bytes.take(32), 32))
    }
}

impl DiversificationNonce {
    /// Reads a diversification nonce from the front of `bytes`.
    pub fn read(bytes: &[u8]) -> (r: Result<(DiversificationNonce, usize), Error>)
        ensures
            match spec_read_diversification_nonce(bytes@) {
                Ok((nonce, n)) => r matches Ok((d, m)) && d@ == nonce && m == n,
                Err(e) => r == Err::<(DiversificationNonce, usize), Error>(e),
            },
    {
        if bytes.len() < 32 {
            return Err(Error::FailedToReadBytes);
        }
        let mut nonce = [0u8; 32];
        let mut i: usize = 0;
        while i < 32
            invariant
                bytes@.len() >= 32,
                i <= 32,
                forall|j: int| 0 <= j < i ==> nonce@[j] == bytes@[j],
            decreases 32 - i,
        {
            nonce[i] = bytes[i];
            i = i + 1;
        }
        proof {
            assert(nonce@ =~= bytes@.take(32));
        }
        Ok((DiversificationNonce(nonce), 32))
    }

    /// Appends the thirty-two bytes of the nonce.
    pub fn write(&self, out: &mut Vec<u8>)
        ensures
            final(out)@ == old(out)@ + self@,
    {
        out.extend_from_slice(self.0.as_slice());
    }
}

} // verus!
