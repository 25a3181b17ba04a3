use vstd::prelude::*;

verus! {

/// The codec of the older packet layout for a UDP socket; the socket's codec trait is
/// implemented by the application around this library.
#[derive(Debug, Clone, Copy, Default)]
pub struct QuicCodec {}

} // verus!
