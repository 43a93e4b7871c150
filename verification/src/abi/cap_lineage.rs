//! What the lineage of a capability permits.

use vstd::prelude::*;

verus! {

/// Everything it was given.
pub const LIVE: u32 = 1;

/// Nothing: a barrier lies above it.
pub const FENCED: u32 = 2;

/// Nothing: a deadline has passed.
pub const EXPIRED: u32 = 3;

} // verus!
