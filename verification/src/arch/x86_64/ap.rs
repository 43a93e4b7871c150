//! The block an application processor starts from.

use vstd::prelude::*;

verus! {

/// Offset of the 32-bit stage inside the block.
pub const OFFSET_STAGE32: usize = 0x0C0;

/// Offset of the 64-bit stage.
pub const OFFSET_STAGE64: usize = 0x140;

/// Offset of the descriptor table.
pub const OFFSET_GDT: usize = 0x180;

/// Offset of the descriptor table pointer; its base field follows the limit.
pub const OFFSET_GDTR: usize = 0x1C0;

/// Offset of the base field inside that pointer.
pub const OFFSET_GDTR_BASE: usize = 0x1C2;

/// Offset of the parameters.
pub const OFFSET_PARAMS: usize = 0x200;

/// Parameters the bootstrap processor fills in before starting a processor.
#[derive(Clone, Copy, Debug, PartialEq, Eq, Structural)]
pub struct Params {
    /// Root of the address space the processor enables paging with. Below four
    /// gibibytes: the 32-bit stage loads it with a 32-bit move.
    pub cr3: u64,
    /// Top of the kernel stack the 64-bit stage installs.
    pub stack_top: u64,
    /// Address of the entry point.
    pub entry: u64,
    /// Index of the processor, passed to that entry point.
    pub cpu_index: u64,
}

/// Byte length of the block between two addresses.
pub fn blob_len(start: usize, end: usize) -> (len: usize)
    requires
        start <= end,
    ensures
        len == end - start,
{
    end - start
}

/// Offset of a patch site inside the block that starts at `start`.
pub fn patch_offset(start: usize, site: usize) -> (offset: usize)
    requires
        start <= site,
    ensures
        offset == site - start,
{
    site - start
}

} // verus!
