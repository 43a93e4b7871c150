//! Classifications of physical memory.

use vstd::prelude::*;

verus! {

/// Free RAM the kernel may allocate from immediately.
pub const USABLE: u32 = 1;

/// RAM holding loader structures, reclaimable once the kernel runs on its own
/// page tables and has copied what it needs.
pub const BOOT_RECLAIMABLE: u32 = 2;

/// RAM holding the loaded kernel image.
pub const KERNEL_IMAGE: u32 = 3;

/// RAM holding boot modules.
pub const MODULES: u32 = 4;

/// Firmware code or data that stays live after boot services end.
pub const FIRMWARE_RUNTIME: u32 = 5;

/// ACPI tables, reclaimable only after they have been parsed.
pub const ACPI_RECLAIMABLE: u32 = 6;

/// ACPI non-volatile storage, never reclaimable.
pub const ACPI_NVS: u32 = 7;

/// Firmware-reserved memory.
pub const RESERVED: u32 = 8;

/// Memory the firmware reported as defective.
pub const UNUSABLE: u32 = 9;

/// Memory-mapped I/O or port space, never RAM.
pub const MMIO: u32 = 10;

} // verus!
