//! Rights a grant can carry. The low bits mean the same for every kind of
//! object; the bits above them belong to one kind each.

use vstd::prelude::*;

verus! {

/// Read what the capability and its object are.
pub const INSPECT: u32 = 0x1;

/// Send the capability to another domain.
pub const TRANSFER: u32 = 0x2;

/// Derive a narrower capability.
pub const DERIVE: u32 = 0x4;

/// Fence or destroy what the capability names.
pub const DESTROY: u32 = 0x8;

/// Rights that exist for every kind of object.
pub const COMMON: u32 = 0xF;

/// Create objects and children in a scope.
pub const SCOPE_CREATE: u32 = 0x10;

/// Change the limits of a scope.
pub const SCOPE_LIMIT: u32 = 0x20;

/// Fence, drain and retire a scope.
pub const SCOPE_CLOSE: u32 = 0x40;

/// Build a domain that is not active yet.
pub const DOMAIN_BUILD: u32 = 0x10;

/// Activate and terminate a domain.
pub const DOMAIN_CONTROL: u32 = 0x20;

/// Read the bytes of a memory object.
pub const MEMORY_READ: u32 = 0x10;

/// Write the bytes of a memory object.
pub const MEMORY_WRITE: u32 = 0x20;

/// Execute the bytes of a memory object.
pub const MEMORY_EXECUTE: u32 = 0x40;

/// Map a memory object.
pub const MEMORY_MAP: u32 = 0x80;

/// Seal a memory object.
pub const MEMORY_SEAL: u32 = 0x100;

/// Send to an endpoint.
pub const ENDPOINT_SEND: u32 = 0x10;

/// Receive from an endpoint.
pub const ENDPOINT_RECEIVE: u32 = 0x20;

/// Bind facets of an endpoint.
pub const ENDPOINT_BIND: u32 = 0x40;

/// Reply to an invocation.
pub const INVOCATION_REPLY: u32 = 0x10;

/// Admit the effect of an invocation.
pub const INVOCATION_EFFECT: u32 = 0x20;

/// Resolve an invocation.
pub const INVOCATION_RESOLVE: u32 = 0x40;

/// Bind a worker to an invocation.
pub const INVOCATION_BIND: u32 = 0x80;

/// Raise the bits of a signal.
pub const SIGNAL_RAISE: u32 = 0x10;

/// Wait for the bits of a signal.
pub const SIGNAL_WAIT: u32 = 0x20;

/// Arm and cancel a timer.
pub const TIMER_ARM: u32 = 0x10;

/// Read and acknowledge a control log.
pub const LOG_READ: u32 = 0x10;

/// Append to a control log.
pub const LOG_APPEND: u32 = 0x20;

/// Drive a device.
pub const DEVICE_CONTROL: u32 = 0x10;

/// Map register windows of a device.
pub const DEVICE_MAP: u32 = 0x20;

/// Route interrupts of a device.
pub const DEVICE_IRQ: u32 = 0x40;

/// Let a device reach memory.
pub const DEVICE_DMA: u32 = 0x80;

} // verus!
