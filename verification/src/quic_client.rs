use vstd::prelude::*;

verus! {

/// A client end of a connection. Connecting (binding a socket and running the crypto handshake)
/// is I/O and is left to the application around this library.
pub struct QuicClient {}

} // verus!
