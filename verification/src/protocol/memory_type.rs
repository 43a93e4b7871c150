//! Firmware memory types the loader allocates with. Values at or above
//! `0x8000_0000` are reserved for the operating system loader.

use vstd::prelude::*;

verus! {

/// Pages holding the loaded kernel image.
pub const KERNEL_IMAGE: u32 = 0x8000_0001;

/// Pages holding boot module images.
pub const MODULES: u32 = 0x8000_0002;

/// Pages holding loader structures.
pub const BOOT_RECLAIMABLE: u32 = 0x8000_0003;

} // verus!
