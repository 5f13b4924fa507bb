//! The one error a storage can report.

use vstd::prelude::*;

verus! {

/// The error returned when allocating using a storage fails.
///
/// It carries no payload: the only thing a caller learns is that the request
/// could not be satisfied.
#[derive(Debug, Clone, Copy, PartialEq, Eq, Structural)]
pub struct StorageAllocError;

} // verus!
