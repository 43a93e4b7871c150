//! Flags of an operation.

use vstd::prelude::*;

verus! {

/// Refuse rather than wait.
pub const NONBLOCKING: u64 = 1;

/// Every flag that has a meaning.
pub const KNOWN: u64 = 1;

} // verus!
