//! Programmable interval timer, used only as a frequency reference.

use vstd::prelude::*;

verus! {

/// Input frequency in hertz.
pub const FREQUENCY: u64 = 1_193_182;

/// Data port of channel 0.
pub const CHANNEL0_DATA: u16 = 0x40;

/// Command port.
pub const COMMAND: u16 = 0x43;

/// The counter that two latched bytes hold.
pub fn counter(low: u8, high: u8) -> (value: u16)
    ensures
        value == high * 0x100 + low,
{
    high as u16 * 0x100 + low as u16
}

/// Ticks since the counter was started from its highest value, valid until it
/// wraps.
pub fn elapsed_ticks(counter: u16) -> (ticks: u16)
    ensures
        ticks == 0xFFFF - counter,
{
    0xFFFF - counter
}

} // verus!
