//! `syscall` configuration.

use vstd::prelude::*;

use crate::arch::x86_64::gdt::{STAR_SYSCALL_BASE, STAR_SYSRET_BASE};

verus! {

/// Flags cleared on `syscall` entry: trap, interrupt, direction, privilege
/// level of ports, nested task, resume and alignment check.
pub const SYSCALL_FLAG_MASK: u64 = 0x5_7700;

/// Value written to `IA32_STAR`.
pub fn star_value() -> (value: u64)
    ensures
        value == STAR_SYSRET_BASE * 0x1_0000_0000_0000 + STAR_SYSCALL_BASE * 0x1_0000_0000,
{
    STAR_SYSRET_BASE * 0x1_0000_0000_0000 + STAR_SYSCALL_BASE * 0x1_0000_0000
}

/// A `syscall` enters the kernel with interrupts masked, whatever the caller
/// ran with.
pub proof fn entry_masks_interrupts(rflags: u64)
    ensures
        rflags & !SYSCALL_FLAG_MASK & 0x200 == 0,
{
    assert(rflags & !0x5_7700u64 & 0x200 == 0) by (bit_vector);
}

} // verus!
