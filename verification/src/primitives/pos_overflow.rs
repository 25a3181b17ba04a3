use vstd::prelude::*;

verus! {

/// The error of a conversion whose source value is too large for the target type; it holds the
/// source value.
#[derive(Debug, Clone, Copy, PartialEq, Eq)]
pub struct PosOverflow<T>(pub T);

} // verus!
