//! Fixed virtual layout of the kernel's dynamic region and of a user domain.

use vstd::prelude::*;

use crate::protocol::{KERNEL_DYNAMIC_BASE, PAGE_SIZE, USER_MAX_ADDR};

verus! {

/// Device mappings. Uncacheable, never RAM.
pub const DEVICE_AREA: u64 = KERNEL_DYNAMIC_BASE;

/// Local APIC register page.
pub const LAPIC_VADDR: u64 = DEVICE_AREA;

/// Emergency stacks, one set per processor.
pub const IST_AREA: u64 = KERNEL_DYNAMIC_BASE + 0x10_0000;

/// Pages per emergency stack.
pub const IST_PAGES: u64 = 2;

/// Pages per emergency stack slot, including the guard page below it.
pub const IST_SLOT_PAGES: u64 = IST_PAGES + 1;

/// Bytes per emergency stack slot.
pub const IST_SLOT_BYTES: u64 = 3 * 4096;

/// Emergency stacks per processor: double fault, non-maskable interrupt,
/// machine check.
pub const IST_COUNT: usize = 3;

/// Per-thread kernel stacks.
pub const KSTACK_AREA: u64 = KERNEL_DYNAMIC_BASE + 0x20_0000;

/// Pages per kernel stack.
pub const KSTACK_PAGES: u64 = 4;

/// Pages per kernel stack slot, including the guard page below it.
pub const KSTACK_SLOT_PAGES: u64 = KSTACK_PAGES + 1;

/// Bytes per kernel stack slot.
pub const KSTACK_SLOT_BYTES: u64 = 5 * 4096;

/// The firmware's configuration-space window.
pub const ECAM_VADDR: u64 = KERNEL_DYNAMIC_BASE + 0x100_0000;

/// Buses that window covers.
pub const ECAM_BUSES: u8 = 2;

/// Device registers the kernel maps for itself.
pub const MMIO_AREA: u64 = KERNEL_DYNAMIC_BASE + 0x200_0000;

/// Pages of that window.
pub const MMIO_PAGES: u64 = 64;

/// Top of a user domain's initial stack. The stack grows down from here and a
/// guard page sits below its lowest mapped page.
pub const USER_STACK_TOP: u64 = USER_MAX_ADDR - PAGE_SIZE;

/// Pages of user stack mapped at domain creation.
pub const USER_STACK_PAGES: u64 = 8;

/// Base of the kernel stack slot `index`, guard page included.
pub fn kstack_slot_base(index: usize) -> (base: u64)
    requires
        KSTACK_AREA + index * KSTACK_SLOT_BYTES <= u64::MAX,
    ensures
        base == KSTACK_AREA + index * KSTACK_SLOT_BYTES,
{
    KSTACK_AREA + (index as u64) * KSTACK_SLOT_BYTES
}

/// Base of the emergency stack slot `index`, guard page included. The index
/// spans every processor's set, not one processor's three.
pub fn ist_slot_base(index: usize) -> (base: u64)
    requires
        IST_AREA + index * IST_SLOT_BYTES <= u64::MAX,
    ensures
        base == IST_AREA + index * IST_SLOT_BYTES,
{
    IST_AREA + (index as u64) * IST_SLOT_BYTES
}

/// Two kernel stack slots never share a byte, and the stack pages of each leave
/// its lowest page as a guard.
pub proof fn kernel_stacks_are_separate(i: int, j: int)
    requires
        0 <= i < j,
    ensures
        KSTACK_AREA + i * KSTACK_SLOT_BYTES + PAGE_SIZE + KSTACK_PAGES * PAGE_SIZE
            <= KSTACK_AREA + j * KSTACK_SLOT_BYTES,
{
    assert(i * KSTACK_SLOT_BYTES + KSTACK_SLOT_BYTES <= j * KSTACK_SLOT_BYTES) by (nonlinear_arith)
        requires
            i + 1 <= j,
    ;
}

} // verus!
