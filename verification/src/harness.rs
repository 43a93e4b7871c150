//! How a run ends where the machine is an emulator.

use vstd::prelude::*;

verus! {

/// I/O port of the emulator's debug-exit device.
pub const DEBUG_EXIT_PORT: u16 = 0xF4;

/// The run reached its terminal state with no domain left to schedule.
pub const STATUS_COMPLETE: u8 = 0x10;

/// The kernel panicked.
pub const STATUS_PANIC: u8 = 0x11;

/// Exit status of the emulator for a status written to the port.
pub fn exit_status(status: u8) -> (code: u16)
    ensures
        code == status * 2 + 1,
{
    status as u16 * 2 + 1
}

} // verus!
