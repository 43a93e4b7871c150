//! Kinds of message.

use vstd::prelude::*;

verus! {

/// Sent by a domain.
pub const REQUEST: u32 = 1;

/// Reported by the kernel for a domain that stopped.
pub const FAULT: u32 = 2;

} // verus!
