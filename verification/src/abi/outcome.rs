//! How an invocation ended.

use vstd::prelude::*;

verus! {

/// The work was done.
pub const COMMITTED: u32 = 1;

/// The work was not done.
pub const ABORTED: u32 = 2;

/// Nobody can say.
pub const UNKNOWN: u32 = 3;

} // verus!
