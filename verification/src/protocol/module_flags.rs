//! Flags a boot module carries.

use vstd::prelude::*;

verus! {

/// The image is expected to be rejected by validation. No check is relaxed for
/// it; the flag only tells a deliberate rejection from an accident.
pub const EXPECT_REJECT: u32 = 1;

/// Once the supervisor is built, trace records are withheld and counted.
pub const TRACE_OFF: u32 = 2;

} // verus!
