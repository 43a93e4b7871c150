//! Global descriptor table and task state segment, one of each per processor.
//!
//! The selector layout is not free: the system call instructions derive the
//! user selectors from one register, so user data must sit immediately above
//! kernel data and user code immediately above user data.

use vstd::prelude::*;

use crate::layout::IST_COUNT;

verus! {

/// Kernel code selector.
pub const KERNEL_CODE: u16 = 0x08;

/// Kernel data selector.
pub const KERNEL_DATA: u16 = 0x10;

/// User data selector, requested privilege level 3.
pub const USER_DATA: u16 = 0x1B;

/// User code selector, requested privilege level 3.
pub const USER_CODE: u16 = 0x23;

/// Task state segment selector.
pub const TSS_SELECTOR: u16 = 0x28;

/// `IA32_STAR` bits 47:32 select the kernel selectors used by `syscall`.
pub const STAR_SYSCALL_BASE: u64 = 0x08;

/// `IA32_STAR` bits 63:48; `sysretq` derives user code from base + 16 and the
/// user stack from base + 8.
///
/// The privilege bits belong in this field: one vendor forces the returned
/// selectors to level 3, the other takes them as they stand.
pub const STAR_SYSRET_BASE: u64 = 0x13;

/// Bytes of a task state segment.
pub const TSS_LEN: u16 = 104;

/// Bytes of a descriptor table.
pub const GDT_LEN: u16 = 56;

/// 64-bit kernel code.
pub const KERNEL_CODE_DESC: u64 = 0x00AF_9A00_0000_FFFF;

/// Kernel data.
pub const KERNEL_DATA_DESC: u64 = 0x00CF_9200_0000_FFFF;

/// User data.
pub const USER_DATA_DESC: u64 = 0x00CF_F200_0000_FFFF;

/// 64-bit user code.
pub const USER_CODE_DESC: u64 = 0x00AF_FA00_0000_FFFF;

/// What `sysretq` returns to is what the table holds for user code and user
/// data.
pub proof fn selectors_follow_the_instruction()
    ensures
        USER_DATA == STAR_SYSRET_BASE + 8,
        USER_CODE == STAR_SYSRET_BASE + 16,
        KERNEL_DATA == STAR_SYSCALL_BASE + 8,
        USER_DATA as int % 4 == 3,
        USER_CODE as int % 4 == 3,
{
}

/// 64-bit task state segment. `iomap_base` points past the end of the segment,
/// so no permission bitmap exists and every port access from ring 3 faults.
#[derive(Clone, Copy, Debug)]
pub struct Tss {
    /// Stack pointers for privilege levels 0 to 2.
    pub rsp: [u64; 3],
    /// Interrupt stack table entries 1 to 7, counted from zero here.
    pub ist: [u64; 7],
    /// Offset of the permission bitmap.
    pub iomap_base: u16,
}

impl Tss {
    /// A segment with no stacks.
    pub fn new() -> (tss: Tss)
        ensures
            forall|i: int| 0 <= i < 3 ==> #[trigger] tss.rsp@[i] == 0,
            forall|i: int| 0 <= i < 7 ==> #[trigger] tss.ist@[i] == 0,
            tss.iomap_base == TSS_LEN,
    {
        Tss { rsp: [0; 3], ist: [0; 7], iomap_base: TSS_LEN }
    }

    /// Sets the stack the processor loads on a transition into the kernel.
    pub fn set_kernel_stack(&mut self, top: u64)
        ensures
            final(self).rsp@ == old(self).rsp@.update(0, top),
            final(self).ist == old(self).ist,
            final(self).iomap_base == old(self).iomap_base,
    {
        self.rsp[0] = top;
    }

    /// Registers the emergency stacks, the first in slot 0.
    pub fn set_emergency_stacks(&mut self, tops: &[u64; IST_COUNT])
        ensures
            forall|i: int|
                0 <= i < 7 ==> #[trigger] final(self).ist@[i] == if i < IST_COUNT {
                    tops@[i]
                } else {
                    old(self).ist@[i]
                },
            final(self).rsp == old(self).rsp,
            final(self).iomap_base == old(self).iomap_base,
    {
        for k in 0..IST_COUNT
            invariant
                forall|i: int|
                    0 <= i < 7 ==> #[trigger] self.ist@[i] == if i < k {
                        tops@[i]
                    } else {
                        old(self).ist@[i]
                    },
                self.rsp == old(self).rsp,
                self.iomap_base == old(self).iomap_base,
        {
            self.ist[k] = tops[k];
        }
    }

    /// The emergency stack in a slot, counted from zero.
    pub fn ist_stack(&self, index: usize) -> (top: u64)
        requires
            index < 7,
        ensures
            top == self.ist@[index as int],
    {
        self.ist[index]
    }
}

/// Low half of the descriptor of a task state segment at `base`: limit, base,
/// type and presence.
pub open spec fn tss_low(base: u64) -> u64 {
    0x67u64 | ((base & 0x00FF_FFFF) << 16) | (0x9u64 << 40) | (1u64 << 47) | (((base >> 24) & 0xFF)
        << 56)
}

/// The descriptor table of a processor whose task state segment is at `base`.
pub fn descriptors(base: u64) -> (entries: [u64; 7])
    ensures
        entries@ == seq![
            0,
            KERNEL_CODE_DESC,
            KERNEL_DATA_DESC,
            USER_DATA_DESC,
            USER_CODE_DESC,
            tss_low(base),
            base >> 32,
        ],
{
    let low: u64 = 0x67u64 | ((base & 0x00FF_FFFF) << 16) | (0x9u64 << 40) | (1u64 << 47) | (((base
        >> 24) & 0xFF) << 56);
    let entries: [u64; 7] = [
        0,
        KERNEL_CODE_DESC,
        KERNEL_DATA_DESC,
        USER_DATA_DESC,
        USER_CODE_DESC,
        low,
        base >> 32,
    ];
    assert(entries@ =~= seq![
        0,
        KERNEL_CODE_DESC,
        KERNEL_DATA_DESC,
        USER_DATA_DESC,
        USER_CODE_DESC,
        tss_low(base),
        base >> 32,
    ]);
    entries
}

/// The base of a task state segment can be read back from its descriptor, and
/// the descriptor's limit is one less than the segment's length.
pub proof fn descriptor_holds_the_base(base: u64)
    ensures
        ((tss_low(base) >> 16) & 0x00FF_FFFF) | (((tss_low(base) >> 56) & 0xFF) << 24) | ((base
            >> 32) << 32) == base,
        tss_low(base) & 0xFFFF == TSS_LEN - 1,
{
    let low = tss_low(base);
    assert(((low >> 16) & 0x00FF_FFFF) | (((low >> 56) & 0xFF) << 24) | ((base >> 32) << 32) == base
        && low & 0xFFFF == 0x67) by (bit_vector)
        requires
            low == 0x67u64 | ((base & 0x00FF_FFFF) << 16) | (0x9u64 << 40) | (1u64 << 47) | (((base
                >> 24) & 0xFF) << 56),
    ;
}

} // verus!
