use vstd::prelude::*;

verus! {

/// Whether data flows both ways on a stream or only from its initiator.
#[derive(Debug, Clone, Copy, PartialEq, Eq, Hash)]
pub enum StreamType {
    Bidirectional,
    Unidirectional,
}

} // verus!
