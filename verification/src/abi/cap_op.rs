//! What a message does with a capability it names.

use vstd::prelude::*;

verus! {

/// The sender keeps its own.
pub const COPY: u32 = 1;

/// The sender gives its own up.
pub const MOVE: u32 = 2;

} // verus!
