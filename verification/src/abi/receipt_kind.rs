//! Kinds of control receipts.

use vstd::prelude::*;

verus! {

/// A lineage or a scope was fenced.
pub const FENCE: u32 = 1;

/// A scope was retired.
pub const RETIRE: u32 = 2;

/// A message was admitted.
pub const ADMIT: u32 = 3;

/// An effect was admitted or refused.
pub const EFFECT: u32 = 4;

/// A service wrote a note.
pub const SERVICE_NOTE: u32 = 5;

} // verus!
