use vstd::prelude::*;

verus! {

/// A server end that accepts connections. Binding its socket is I/O and is left to the
/// application around this library.
pub struct QuicServer {}

} // verus!
