//! The hand-off contract between the loader and the kernel.

use vstd::prelude::*;

pub mod memory_type;
pub mod module_flags;
pub mod module_kind;
pub mod package;
pub mod region_kind;

verus! {

/// `THLXBOOT` in little-endian byte order.
pub const BOOTINFO_MAGIC: u64 = 0x544F_4F42_584C_4854;

/// Major hand-off version. A kernel that does not recognise it must refuse to
/// run rather than guess at the layout.
pub const BOOTINFO_VERSION_MAJOR: u16 = 0;

/// Minor hand-off version. Additive fields only, appended at the end.
pub const BOOTINFO_VERSION_MINOR: u16 = 1;

/// Virtual base of the direct map of physical memory.
pub const HHDM_BASE: u64 = 0xFFFF_8000_0000_0000;

/// Virtual base of the kernel's dynamic region.
pub const KERNEL_DYNAMIC_BASE: u64 = 0xFFFF_8080_0000_0000;

/// Virtual base the kernel image is linked at.
pub const KERNEL_IMAGE_BASE: u64 = 0xFFFF_FFFF_8000_0000;

/// First virtual address a user domain may map. Page zero stays unmapped so a
/// null dereference faults.
pub const USER_MIN_ADDR: u64 = 0x1000;

/// One past the last virtual address a user domain may map.
pub const USER_MAX_ADDR: u64 = 0x0000_8000_0000_0000;

/// Bytes in a page.
pub const PAGE_SIZE: u64 = 4096;

/// Largest number of physical memory regions the loader hands over.
pub const MAX_MEMORY_REGIONS: usize = 512;

/// Largest number of boot modules the loader hands over.
pub const MAX_MODULES: usize = 16;

/// Bytes one [`MemoryRegion`] occupies in the hand-off block.
pub const MEMORY_REGION_LEN: usize = 24;

/// Bytes one [`BootModule`] occupies in the hand-off block.
pub const BOOT_MODULE_LEN: usize = 56;

/// Bytes the [`BootInfo`] structure occupies in the hand-off block.
pub const BOOT_INFO_LEN: usize = 168;

/// Path of the kernel image on the EFI system partition.
pub const KERNEL_PATH: &'static str = "\\thalyx\\kernel.elf";

/// Path of the initial boot package on the EFI system partition.
pub const PACKAGE_PATH: &'static str = "\\thalyx\\boot.tbp";

/// Physical memory region as classified by the loader.
#[derive(Clone, Copy, Debug, PartialEq, Eq, Structural)]
pub struct MemoryRegion {
    /// Page-aligned physical base address.
    pub base: u64,
    /// Length in pages.
    pub pages: u64,
    /// One of [`region_kind`].
    pub kind: u32,
    /// Reserved, zero in this version.
    pub flags: u32,
}

/// A module of the initial boot package, already copied into reserved memory.
#[derive(Clone, Copy, Debug)]
pub struct BootModule {
    /// NUL-padded ASCII name from the boot package directory.
    pub name: [u8; 32],
    /// Page-aligned physical base of the module image.
    pub phys_base: u64,
    /// Exact byte length of the module image.
    pub length: u64,
    /// One of [`module_kind`].
    pub kind: u32,
    /// Module flags, see [`module_flags`].
    pub flags: u32,
}

/// Root hand-off structure.
#[derive(Clone, Copy, Debug)]
pub struct BootInfo {
    /// Must equal [`BOOTINFO_MAGIC`].
    pub magic: u64,
    /// Must equal [`BOOTINFO_VERSION_MAJOR`].
    pub version_major: u16,
    /// Minor version; the kernel accepts any minor it is at least as new as.
    pub version_minor: u16,
    /// Size of this structure in bytes, as built by the loader.
    pub header_len: u32,
    /// Virtual base of the direct map. Must equal [`HHDM_BASE`].
    pub hhdm_base: u64,
    /// Pages of physical address space the direct map covers, from zero.
    pub hhdm_pages: u64,
    /// Physical address of the [`MemoryRegion`] array.
    pub memory_map_phys: u64,
    /// Number of entries in that array.
    pub memory_map_entries: u32,
    /// Size of one entry.
    pub memory_map_entry_size: u32,
    /// Physical address of the [`BootModule`] array.
    pub modules_phys: u64,
    /// Number of entries in that array.
    pub modules_count: u32,
    /// Size of one entry.
    pub modules_entry_size: u32,
    /// Physical address of the ACPI root pointer, or zero.
    pub acpi_rsdp_phys: u64,
    /// Physical base of the loaded kernel image.
    pub kernel_phys_base: u64,
    /// Virtual base the kernel image was mapped at.
    pub kernel_virt_base: u64,
    /// Size of the loaded kernel image in pages.
    pub kernel_image_pages: u64,
    /// Physical base of the bootstrap page tables.
    pub bootstrap_tables_phys: u64,
    /// Size of the bootstrap page tables in pages.
    pub bootstrap_tables_pages: u64,
    /// Physical base of the stack the kernel entry point runs on.
    pub boot_stack_phys: u64,
    /// Size of that stack in pages, guard page included.
    pub boot_stack_pages: u64,
    /// Physical base of the block that holds this structure and both arrays.
    pub handoff_phys: u64,
    /// Size of that block in pages.
    pub handoff_pages: u64,
    /// Diagnostic events the loader already emitted.
    pub loader_event_count: u64,
    /// Firmware-derived value identifying this boot; not unique.
    pub boot_epoch: u64,
    /// I/O port base of the serial port the loader used, or zero.
    pub serial_port: u16,
    /// Reserved, zero.
    pub reserved1: [u16; 3],
}

} // verus!
