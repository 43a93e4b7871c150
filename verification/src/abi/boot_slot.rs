//! Slots of the first supervisor's table that are filled before it runs.

use vstd::prelude::*;

verus! {

/// Its own domain.
pub const SELF_DOMAIN: u32 = 0;

/// The scope its children are carved out of.
pub const SELF_SCOPE: u32 = 1;

/// The control log.
pub const CONTROL_LOG: u32 = 2;

/// First of the assigned devices.
pub const FIRST_DEVICE: u32 = 4;

/// First of the boot modules.
pub const FIRST_MODULE: u32 = 8;

} // verus!
