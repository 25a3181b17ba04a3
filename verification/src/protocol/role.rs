use vstd::prelude::*;

verus! {

/// The side of a connection.
#[derive(Debug, Clone, Copy, PartialEq, Eq, Hash)]
pub enum Role {
    Client,
    Server,
}

} // verus!
