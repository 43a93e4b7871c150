//! Signals and timers.
//!
//! A signal coalesces: it holds a bit set and a sequence number, not one event
//! per occurrence. Registering a waiter and testing the bits happen in one
//! step, and so does raising, so a raise that arrives between the test and the
//! sleep cannot be lost.

use vstd::prelude::*;

verus! {

/// A coalescing bit set with a sequence.
#[derive(Clone, Copy, Debug, PartialEq, Eq, Structural)]
pub struct Signal {
    /// Whether the slot is in use.
    pub used: bool,
    /// Generation of this table slot.
    pub generation: u32,
    /// Diagnostic identity.
    pub id: u64,
    /// Scope charged for the object.
    pub owner_scope: u16,
    /// Bits raised and not yet consumed.
    pub bits: u64,
    /// Advances on every raise.
    pub sequence: u64,
    /// Capability entries naming this signal.
    pub refs: u32,
}

impl Signal {
    /// A free slot.
    pub open spec fn empty_spec() -> Signal {
        Signal {
            used: false,
            generation: 0,
            id: 0,
            owner_scope: 0,
            bits: 0,
            sequence: 0,
            refs: 0,
        }
    }

    /// A free slot.
    pub fn empty() -> (signal: Signal)
        ensures
            signal == Signal::empty_spec(),
    {
        Signal {
            used: false,
            generation: 0,
            id: 0,
            owner_scope: 0,
            bits: 0,
            sequence: 0,
            refs: 0,
        }
    }
}

/// A monotonic expiry bound to a signal.
#[derive(Clone, Copy, Debug, PartialEq, Eq, Structural)]
pub struct Timer {
    /// Whether the slot is in use.
    pub used: bool,
    /// Generation of this table slot.
    pub generation: u32,
    /// Diagnostic identity.
    pub id: u64,
    /// Scope charged for the object.
    pub owner_scope: u16,
    /// Signal raised on expiry.
    pub signal: u16,
    /// Generation that signal had when the timer was bound to it, so an expiry
    /// never raises a recycled object.
    pub signal_generation: u32,
    /// Bits raised on expiry.
    pub bits: u64,
    /// Monotonic deadline while armed.
    pub deadline_ns: u64,
    /// Whether the timer is armed.
    pub armed: bool,
    /// Expiries delivered.
    pub fired: u64,
    /// Capability entries naming this timer.
    pub refs: u32,
}

impl Timer {
    /// A free slot.
    pub open spec fn empty_spec() -> Timer {
        Timer {
            used: false,
            generation: 0,
            id: 0,
            owner_scope: 0,
            signal: 0,
            signal_generation: 0,
            bits: 0,
            deadline_ns: 0,
            armed: false,
            fired: 0,
            refs: 0,
        }
    }

    /// A free slot.
    pub fn empty() -> (timer: Timer)
        ensures
            timer == Timer::empty_spec(),
    {
        Timer {
            used: false,
            generation: 0,
            id: 0,
            owner_scope: 0,
            signal: 0,
            signal_generation: 0,
            bits: 0,
            deadline_ns: 0,
            armed: false,
            fired: 0,
            refs: 0,
        }
    }
}

} // verus!
