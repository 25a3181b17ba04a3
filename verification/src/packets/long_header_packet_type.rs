use vstd::prelude::*;

verus! {

/// The kind of packet a long header starts.
#[derive(Debug, Clone, Copy, Eq, PartialEq, Hash)]
pub enum LongHeaderPacketType {
    Initial,
    Retry,
    Handshake,
    ZeroRttProtected,
}

} // verus!
