//! Numbers of the kinds of objects.

use vstd::prelude::*;

verus! {

/// Any kind.
pub const NONE: u32 = 0;

/// A scope.
pub const SCOPE: u32 = 1;

/// A domain.
pub const DOMAIN: u32 = 2;

/// A memory object.
pub const MEMORY: u32 = 3;

/// An endpoint.
pub const ENDPOINT: u32 = 4;

/// An invocation.
pub const INVOCATION: u32 = 5;

/// A signal.
pub const SIGNAL: u32 = 6;

/// A timer.
pub const TIMER: u32 = 7;

/// A control log.
pub const CONTROL_LOG: u32 = 8;

/// A device.
pub const DEVICE: u32 = 9;

} // verus!
