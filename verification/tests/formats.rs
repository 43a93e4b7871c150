//! Files and tables that come from outside: packages, images, firmware tables,
//! the hand-off.

use thalyx::acpi;
use thalyx::boot::{
    boot_stack_top, find_supervisor, frame_uses, kind_name, memory_totals, user_images, validate,
};
use thalyx::bytes::{put_u64, read_u16, read_u32, read_u64};
use thalyx::elf;
use thalyx::k2boot::module_name;
use thalyx::loader::elf as kernel_elf;
use thalyx::loader::package as packages;
use thalyx::loader::paging::{Error, Pool, Tables};
use thalyx::loader::prepare::{
    boot_info, build_tables, classify, classify_map, direct_map, extents, handoff_layout, is_ram,
    module_records, segment_destination, segment_flags, table_pool_pages, Descriptor, Prepared,
    BOOT_STACK_PAGES, CONVENTIONAL, GIB,
};
use thalyx::mm::FrameUse;
use thalyx::page_table::{NO_EXECUTE, WRITABLE};
use thalyx::protocol::{
    memory_type, module_kind, region_kind, BootInfo, BootModule, MemoryRegion, HHDM_BASE,
    KERNEL_IMAGE_BASE,
};

fn put(bytes: &mut Vec<u8>, at: usize, value: u64, width: usize) {
    for i in 0..width {
        bytes[at + i] = (value >> (8 * i)) as u8;
    }
}

/// One loadable segment: flags, offset, address, bytes in the file, bytes in
/// memory.
type Load = (u32, u64, u64, u64, u64);

fn image(entry: u64, loads: &[Load], len: usize) -> Vec<u8> {
    let mut bytes = vec![0u8; len];
    bytes[..7].copy_from_slice(&[0x7F, 0x45, 0x4C, 0x46, 2, 1, 1]);
    put(&mut bytes, 16, 2, 2);
    put(&mut bytes, 18, 0x3E, 2);
    put(&mut bytes, 20, 1, 4);
    put(&mut bytes, 24, entry, 8);
    put(&mut bytes, 32, 64, 8);
    put(&mut bytes, 52, 64, 2);
    put(&mut bytes, 54, 56, 2);
    put(&mut bytes, 56, loads.len() as u64, 2);
    for (i, load) in loads.iter().enumerate() {
        let at = 64 + 56 * i;
        put(&mut bytes, at, 1, 4);
        put(&mut bytes, at + 4, u64::from(load.0), 4);
        put(&mut bytes, at + 8, load.1, 8);
        put(&mut bytes, at + 16, load.2, 8);
        put(&mut bytes, at + 32, load.3, 8);
        put(&mut bytes, at + 40, load.4, 8);
    }
    bytes
}

const RX: u32 = 5;
const RW: u32 = 6;

fn user(loads: &[Load]) -> Result<elf::Image, elf::Reject> {
    elf::parse_user_image(&image(0x40_0010, loads, 0x2000))
}

#[test]
fn little_endian_reads() {
    let bytes = [1u8, 2, 3, 4, 5, 6, 7, 8, 9];
    assert_eq!(read_u16(&bytes, 1), Some(0x0302));
    assert_eq!(read_u32(&bytes, 0), Some(0x0403_0201));
    assert_eq!(read_u64(&bytes, 1), Some(0x0908_0706_0504_0302));
    assert_eq!(read_u64(&bytes, 2), None);
    assert_eq!(read_u16(&bytes, usize::MAX), None);
    let mut payload = [0u8; 256];
    put_u64(&mut payload, 248, 0x1122_3344_5566_7788);
    assert_eq!(read_u64(&payload, 248), Some(0x1122_3344_5566_7788));
}

#[test]
fn a_sound_user_image_is_accepted() {
    let parsed = user(&[
        (RX, 0x1000, 0x40_0000, 0x100, 0x100),
        (RW, 0x1100, 0x40_1000, 0x10, 0x2001),
    ])
    .unwrap();
    assert_eq!(parsed.entry, 0x40_0010);
    assert_eq!(parsed.segment_count, 2);
    assert_eq!(parsed.pages, 4);
    assert!(parsed.segments[0].execute && !parsed.segments[0].write);
    assert_eq!(parsed.segments[1].mem_len, 0x2001);
}

#[test]
fn user_image_refusals() {
    let good = (RX, 0x1000, 0x40_0000, 0x100, 0x100);
    let refused = |loads: &[Load]| user(loads).err().unwrap().name();
    assert_eq!(refused(&[]), elf::Reject::BadProgramHeaders.name());
    assert_eq!(
        refused(&[(RX, 0x1000, 0x40_0000, 0x101, 0x100)]),
        elf::Reject::SegmentFileLargerThanMemory.name()
    );
    assert_eq!(
        refused(&[(RX, 0x1FFF, 0x40_0000, 2, 2)]),
        elf::Reject::SegmentOutsideImage.name()
    );
    assert_eq!(
        refused(&[(RX, 0x1000, 0x40_0001, 1, 1)]),
        elf::Reject::SegmentUnaligned.name()
    );
    assert_eq!(
        refused(&[(RX, 0x1000, 0, 1, 1)]),
        elf::Reject::SegmentOutsideUserRange.name()
    );
    assert_eq!(
        refused(&[(7, 0x1000, 0x40_0000, 1, 1)]),
        elf::Reject::SegmentWriteAndExecute.name()
    );
    assert_eq!(
        refused(&[(2, 0x1000, 0x40_0000, 1, 1)]),
        elf::Reject::SegmentWriteOrExecuteWithoutRead.name()
    );
    assert_eq!(
        refused(&[good, (RW, 0x1000, 0x40_0000, 1, 1)]),
        elf::Reject::SegmentOverlap.name()
    );
    assert_eq!(
        refused(&[good, (RW, 0x1000, 0x50_0000, 1, 768 * 4096)]),
        elf::Reject::ImageTooManyPages.name()
    );
    assert_eq!(
        refused(&[(RW, 0x1000, 0x40_0000, 0x100, 0x100)]),
        elf::Reject::EntryNotExecutable.name()
    );
    assert_eq!(
        refused(&[(RX, 0x1000, 0x40_0000, 0, 0)]),
        elf::Reject::SegmentCount.name()
    );
}

#[test]
fn user_header_refusals() {
    let good = image(0x40_0000, &[(RX, 0x1000, 0x40_0000, 1, 1)], 0x2000);
    assert!(elf::parse_user_image(&good).is_ok());
    let name = |bytes: &[u8]| elf::parse_user_image(bytes).err().unwrap().name();
    assert_eq!(name(&good[..63]), elf::Reject::TooShort.name());
    let mut bad = good.clone();
    bad[0] = 0;
    assert_eq!(name(&bad), elf::Reject::NotElf64.name());
    let mut bad = good.clone();
    bad[16] = 3;
    assert_eq!(name(&bad), elf::Reject::WrongObjectType.name());
    let mut bad = good.clone();
    bad[54] = 57;
    assert_eq!(name(&bad), elf::Reject::BadProgramHeaders.name());
    let mut bad = good;
    bad.resize(4 * 1024 * 1024 + 1, 0);
    assert_eq!(name(&bad), elf::Reject::TooLarge.name());
}

fn kernel_image() -> Vec<u8> {
    image(
        KERNEL_IMAGE_BASE + 0x20,
        &[
            (RX, 0x1000, KERNEL_IMAGE_BASE, 0x800, 0x1800),
            (RW, 0x1800, KERNEL_IMAGE_BASE + 0x3000, 0x10, 0x1000),
        ],
        0x2000,
    )
}

#[test]
fn a_kernel_image_is_placed() {
    let kernel = kernel_elf::parse(&kernel_image()).unwrap();
    assert_eq!(kernel.base, KERNEL_IMAGE_BASE);
    assert_eq!(kernel.end, KERNEL_IMAGE_BASE + 0x4000);
    assert_eq!(kernel.pages(), 4);
    assert_eq!(kernel.segments[0].pages(), 2);
    assert_eq!(segment_destination(&kernel, 0x20_0000, &kernel.segments[1]), 0x20_3000);
    assert_eq!(segment_flags(&kernel.segments[0]), 0);
    assert_eq!(segment_flags(&kernel.segments[1]), WRITABLE | NO_EXECUTE);
}

#[test]
fn kernel_image_refusals() {
    let name = |loads: &[Load]| {
        kernel_elf::parse(&image(KERNEL_IMAGE_BASE, loads, 0x2000)).err().unwrap().name()
    };
    let base = KERNEL_IMAGE_BASE;
    assert_eq!(
        name(&[(RX, 0x1000, 0x40_0000, 1, 1)]),
        kernel_elf::Reject::SegmentOutsideKernelRange.name()
    );
    assert_eq!(
        name(&[(RX, 0x1000, base + 0x1000, 1, 1)]),
        kernel_elf::Reject::WrongImageBase.name()
    );
    assert_eq!(
        name(&[(RX, 0x1000, u64::MAX - 0xFFF, 1, 1)]),
        kernel_elf::Reject::SegmentOutsideKernelRange.name()
    );
    assert_eq!(
        name(&[(7, 0x1000, base, 1, 1)]),
        kernel_elf::Reject::SegmentWriteAndExecute.name()
    );
    assert_eq!(
        name(&[(RX, 0x1000, base, 1, 1), (RW, 0x1000, base, 1, 1)]),
        kernel_elf::Reject::SegmentOverlap.name()
    );
}

#[test]
fn bootstrap_tables_translate_what_was_asked() {
    let kernel = kernel_elf::parse(&kernel_image()).unwrap();
    let pages = table_pool_pages(kernel.pages(), 1);
    assert_eq!(pages, 1 + 3 + 2 + 1 + 2 + 4);
    let tables = build_tables(Pool::new(0x10_0000, pages), 1, &kernel, 0x20_0000).unwrap();
    assert_eq!(tables.root(), 0x10_0000);
    assert_eq!(tables.pool().pages(), pages);
    // Two directories of large pages, and one of each table for the image.
    assert_eq!(tables.pool().used(), 1 + 2 + 2 + 3);
    let root = tables.pool().page(0);
    assert_ne!(root[0] & 1, 0);
    assert_ne!(root[256] & 1, 0);
    assert_ne!(root[511] & 1, 0);
    assert_eq!(root.iter().filter(|e| **e != 0).count(), 3);
}

#[test]
fn bootstrap_tables_run_out() {
    let kernel = kernel_elf::parse(&kernel_image()).unwrap();
    let failed = |pages: usize| {
        build_tables(Pool::new(0x10_0000, pages), 1, &kernel, 0x20_0000).err().unwrap()
    };
    assert_eq!(failed(0), "page_table_pool_exhausted");
    assert_eq!(failed(1), "identity_map_failed");
    assert_eq!(failed(4), "direct_map_failed");
    assert_eq!(failed(6), "kernel_map_failed");
}

#[test]
fn bootstrap_mappings_do_not_overlap() {
    let mut tables = Tables::new(Pool::new(0x10_0000, 8)).unwrap();
    assert!(matches!(tables.map(0x1001, 0, 0), Err(Error::Misaligned)));
    assert!(tables.map(0x1000, 0x5000, WRITABLE).is_ok());
    assert!(matches!(tables.map(0x1000, 0x6000, 0), Err(Error::AlreadyMapped)));
    assert!(matches!(tables.map_large(0, 0, 0), Err(Error::AlreadyMapped)));
    assert!(tables.map_large(0x20_0000, 0, 0).is_ok());
    assert!(matches!(tables.map(0x20_1000, 0, 0), Err(Error::LargePageInTheWay)));
    // What is refused or empty takes no table.
    let used = tables.pool().used();
    assert!(matches!(tables.map_large(1 << 40, 0x1000, 0), Err(Error::Misaligned)));
    assert!(tables.map_range(1 << 40, 0, 0, 0).is_ok());
    assert_eq!(tables.pool().used(), used);
}

fn package(entries: &[(&str, u64, u64, u32)], len: usize) -> Vec<u8> {
    let mut bytes = vec![0u8; len];
    put(&mut bytes, 0, 0x3047_4B50_584C_4854, 8);
    put(&mut bytes, 10, 1, 2);
    put(&mut bytes, 12, 40, 4);
    put(&mut bytes, 16, entries.len() as u64, 4);
    put(&mut bytes, 20, 64, 4);
    put(&mut bytes, 24, len as u64, 8);
    for (i, entry) in entries.iter().enumerate() {
        let at = 40 + 64 * i;
        bytes[at..at + entry.0.len()].copy_from_slice(entry.0.as_bytes());
        put(&mut bytes, at + 32, entry.1, 8);
        put(&mut bytes, at + 40, entry.2, 8);
        put(&mut bytes, at + 48, u64::from(entry.3), 4);
    }
    bytes
}

#[test]
fn a_package_directory_is_read() {
    let bytes = package(&[("init", 200, 16, 2), ("shell", 216, 8, 1)], 256);
    let directory = packages::parse(&bytes).unwrap();
    assert_eq!(directory.count, 2);
    assert_eq!(directory.entries[0].offset, 200);
    assert_eq!(directory.entries[1].length, 8);
    assert_eq!(directory.entries[0].kind, 2);
    let modules = module_records(&directory, &vec![0x5000, 0x6000]);
    assert_eq!(modules[1].phys_base, 0x6000);
    assert_eq!(modules[1].length, 8);
    assert_eq!(module_name(&modules[1]), b"shell".to_vec());
}

#[test]
fn package_refusals() {
    let name = |bytes: &[u8]| packages::parse(bytes).err().unwrap().name();
    let good = package(&[("a", 200, 16, 1)], 256);
    assert_eq!(name(&good[..39]), packages::Reject::TooShort.name());
    let mut bad = good.clone();
    bad[0] ^= 1;
    assert_eq!(name(&bad), packages::Reject::BadMagic.name());
    let mut bad = good.clone();
    bad[8] = 1;
    assert_eq!(name(&bad), packages::Reject::IncompatibleVersion.name());
    let mut bad = good.clone();
    bad[12] = 41;
    assert_eq!(name(&bad), packages::Reject::BadLayout.name());
    let mut bad = good.clone();
    bad.push(0);
    assert_eq!(name(&bad), packages::Reject::LengthMismatch.name());
    let mut bad = good.clone();
    bad[16] = 17;
    assert_eq!(name(&bad), packages::Reject::TooManyEntries.name());
    let mut bad = good;
    bad[16] = 4;
    assert_eq!(name(&bad), packages::Reject::DirectoryOutsideFile.name());
    let entry = |e: &[(&str, u64, u64, u32)]| name(&package(e, 256));
    assert_eq!(entry(&[("", 200, 16, 1)]), packages::Reject::BadName.name());
    assert_eq!(entry(&[("a b", 200, 16, 1)]), packages::Reject::BadName.name());
    assert_eq!(entry(&[("a", 200, 0, 1)]), packages::Reject::EmptyEntry.name());
    assert_eq!(entry(&[("a", 200, 57, 1)]), packages::Reject::EntryOutsideFile.name());
    assert_eq!(entry(&[("a", 64, 8, 1)]), packages::Reject::EntryOverlap.name());
    assert_eq!(entry(&[("a", 200, 8, 3)]), packages::Reject::UnknownKind.name());
    assert_eq!(
        entry(&[("a", 200, 16, 1), ("b", 215, 8, 1)]),
        packages::Reject::EntryOverlap.name()
    );
    let mut bytes = package(&[("a", 40, 1, 1)], 105);
    assert_eq!(name(&bytes), packages::Reject::EntryOverlap.name());
    put(&mut bytes, 72, 104, 8);
    assert!(packages::parse(&bytes).is_ok());
}

#[test]
fn memory_types_are_classified() {
    assert!(is_ram(CONVENTIONAL) && is_ram(3) && is_ram(5) && is_ram(9));
    assert!(is_ram(memory_type::MODULES));
    assert!(!is_ram(0) && !is_ram(8) && !is_ram(11) && !is_ram(12) && !is_ram(14));
    assert_eq!(classify(7), region_kind::USABLE);
    assert_eq!(classify(4), region_kind::USABLE);
    assert_eq!(classify(2), region_kind::BOOT_RECLAIMABLE);
    assert_eq!(classify(6), region_kind::FIRMWARE_RUNTIME);
    assert_eq!(classify(9), region_kind::ACPI_RECLAIMABLE);
    assert_eq!(classify(10), region_kind::ACPI_NVS);
    assert_eq!(classify(12), region_kind::MMIO);
    assert_eq!(classify(8), region_kind::UNUSABLE);
    assert_eq!(classify(memory_type::KERNEL_IMAGE), region_kind::KERNEL_IMAGE);
    assert_eq!(classify(memory_type::BOOT_RECLAIMABLE), region_kind::BOOT_RECLAIMABLE);
    assert_eq!(classify(0), region_kind::RESERVED);
    assert_eq!(classify(99), region_kind::RESERVED);
}

#[test]
fn direct_map_covers_ram_only() {
    let map = vec![
        Descriptor { kind: CONVENTIONAL, phys_start: 0x1000, page_count: 0x9F },
        Descriptor { kind: CONVENTIONAL, phys_start: 0x10_0000, page_count: 0x4_0000 },
        Descriptor { kind: 0, phys_start: 0xFD_0000_0000, page_count: 0x1000 },
    ];
    let (ram, any) = extents(&map);
    assert_eq!(ram, 0x4010_0000);
    assert_eq!(any, 0xFD_0100_0000);
    assert_eq!(direct_map(ram, 3), Ok(2));
    assert_eq!(direct_map(0, 3), Ok(1));
    assert_eq!(direct_map(GIB, 3), Ok(1));
    assert_eq!(direct_map(64 * GIB, 480), Ok(64));
    assert_eq!(direct_map(64 * GIB + 1, 3), Err("physical_memory_beyond_direct_map_bound"));
    assert_eq!(direct_map(GIB, 481), Err("memory_map_too_large"));
    let regions = classify_map(&map).unwrap();
    assert_eq!(regions.len(), 3);
    assert_eq!(regions[2].kind, region_kind::RESERVED);
    assert_eq!(regions[1].pages, 0x4_0000);
    assert!(classify_map(&vec![map[0]; 513]).is_none());
}

#[test]
fn hand_off_block_is_laid_out() {
    let layout = handoff_layout();
    assert_eq!(layout.regions_offset, 0x1000);
    assert_eq!(layout.modules_offset, 0x4000);
    assert_eq!(layout.total_pages, 5);
}

fn prepared() -> Prepared {
    Prepared {
        tables_root: 0x10_0000,
        tables_phys: 0x10_0000,
        tables_pages: 13,
        entry: KERNEL_IMAGE_BASE,
        kernel_phys: 0x20_0000,
        kernel_pages: 4,
        stack_phys: 0x30_0000,
        stack_pages: BOOT_STACK_PAGES,
        handoff_phys: 0x40_0000,
        handoff_pages: 5,
        regions_phys: 0x40_1000,
        modules_phys: 0x40_4000,
        module_count: 2,
        hhdm_pages: 0x4_0000,
        acpi_rsdp: 0,
    }
}

fn info() -> BootInfo {
    boot_info(&prepared(), 3, 10, 0x3F8)
}

#[test]
fn the_kernel_accepts_what_the_loader_hands_over() {
    let info = info();
    assert_eq!(info.loader_event_count, 12);
    assert_eq!(validate(&info), Ok(()));
    assert_eq!(boot_stack_top(&info), HHDM_BASE + 0x30_0000 + 16 * 4096);
}

#[test]
fn hand_off_refusals() {
    let refused = |change: &dyn Fn(&mut BootInfo)| {
        let mut bad = info();
        change(&mut bad);
        validate(&bad).err().unwrap()
    };
    assert_eq!(refused(&|i| i.magic = 0), "bad_magic");
    assert_eq!(refused(&|i| i.version_major = 1), "incompatible_version");
    assert_eq!(refused(&|i| i.version_minor = 2), "incompatible_version");
    let mut older = info();
    older.version_minor = 0;
    assert_eq!(validate(&older), Ok(()));
    assert_eq!(refused(&|i| i.header_len = 100), "short_header");
    assert_eq!(refused(&|i| i.hhdm_base = 0), "direct_map_base_mismatch");
    assert_eq!(refused(&|i| i.hhdm_pages = 0), "empty_direct_map");
    assert_eq!(refused(&|i| i.memory_map_entry_size = 25), "memory_map_entry_size");
    assert_eq!(refused(&|i| i.memory_map_entries = 0), "memory_map_entry_count");
    assert_eq!(refused(&|i| i.memory_map_entries = 513), "memory_map_entry_count");
    assert_eq!(refused(&|i| i.modules_entry_size = 1), "module_entry_size");
    assert_eq!(refused(&|i| i.modules_count = 17), "module_count");
    assert_eq!(refused(&|i| i.kernel_virt_base = 0), "kernel_base_mismatch");
    assert_eq!(refused(&|i| i.boot_stack_pages = 0), "no_boot_stack");
}

#[test]
fn memory_map_adds_up() {
    let region = |base: u64, pages: u64, kind: u32| MemoryRegion { base, pages, kind, flags: 0 };
    let regions = vec![
        region(0, 1, region_kind::RESERVED),
        region(0x1000, 3, region_kind::USABLE),
        region(0x4000, 2, region_kind::MODULES),
        region(0x6000, 1, region_kind::BOOT_RECLAIMABLE),
        region(0x7000, 5, region_kind::MMIO),
        region(0xC000, 1, region_kind::USABLE),
    ];
    let totals = memory_totals(&regions);
    assert_eq!((totals.usable, totals.reclaimable, totals.firmware), (4, 3, 1));
    let uses = frame_uses(&regions, 14);
    assert_eq!(uses[0], FrameUse::Reserved);
    assert_eq!(uses[3], FrameUse::Free);
    assert_eq!(uses[4], FrameUse::Reserved);
    assert_eq!(uses[12], FrameUse::Free);
    assert_eq!(uses[13], FrameUse::Reserved);
    assert_eq!(kind_name(region_kind::MODULES), "modules");
    assert_eq!(kind_name(77), "unknown");
}

#[test]
fn a_package_selects_its_path() {
    let module = |kind: u32| BootModule {
        name: [0; 32],
        phys_base: 0,
        length: 1,
        kind,
        flags: 0,
    };
    let plain = vec![module(module_kind::USER_ELF), module(module_kind::USER_ELF)];
    assert_eq!(find_supervisor(&plain), None);
    let managed = vec![
        module(module_kind::USER_ELF),
        module(module_kind::SUPERVISOR),
        module(module_kind::USER_ELF),
    ];
    assert_eq!(find_supervisor(&managed), Some(1));
    assert_eq!(user_images(&managed).len(), 2);
}

fn checked(table: &mut Vec<u8>, at: usize) {
    let sum: u8 = table.iter().fold(0u8, |sum, byte| sum.wrapping_add(*byte));
    table[at] = table[at].wrapping_sub(sum);
}

fn description(signature: &[u8; 4], body: &[u8]) -> Vec<u8> {
    let mut table = vec![0u8; 36];
    table[..4].copy_from_slice(signature);
    table.extend_from_slice(body);
    let len = table.len() as u64;
    put(&mut table, 4, len, 4);
    checked(&mut table, 9);
    table
}

fn firmware(children: &[Vec<u8>]) -> Vec<u8> {
    let mut memory = vec![0u8; 0x4000];
    let mut body = Vec::new();
    for (i, child) in children.iter().enumerate() {
        let at = 0x2000 + 0x400 * i;
        memory[at..at + child.len()].copy_from_slice(child);
        body.extend_from_slice(&(at as u64).to_le_bytes());
    }
    let root = description(b"XSDT", &body);
    memory[0x1000..0x1000 + root.len()].copy_from_slice(&root);
    let mut pointer = vec![0u8; 36];
    pointer[..8].copy_from_slice(b"RSD PTR ");
    pointer[15] = 2;
    put(&mut pointer, 20, 36, 4);
    put(&mut pointer, 24, 0x1000, 8);
    let sum: u8 = pointer[..20].iter().fold(0u8, |sum, byte| sum.wrapping_add(*byte));
    pointer[8] = pointer[8].wrapping_sub(sum);
    checked(&mut pointer, 32);
    memory[0x800..0x824].copy_from_slice(&pointer);
    memory
}

fn processors() -> Vec<u8> {
    let mut body = Vec::new();
    body.extend_from_slice(&0xFEE0_0000u32.to_le_bytes());
    body.extend_from_slice(&1u32.to_le_bytes());
    body.extend_from_slice(&[0, 8, 0, 0, 1, 0, 0, 0]);
    body.extend_from_slice(&[0, 8, 1, 2, 0, 0, 0, 0]);
    body.extend_from_slice(&[0, 8, 7, 0, 1, 0, 0, 0]);
    description(b"APIC", &body)
}

#[test]
fn firmware_describes_processors() {
    let memory = firmware(&[processors()]);
    let platform = acpi::parse(&memory, 0x800).unwrap();
    assert_eq!(platform.cpu_count, 2);
    assert_eq!(platform.duplicates, 1);
    assert_eq!(platform.enabled(), 1);
    assert_eq!(platform.lapic_phys, 0xFEE0_0000);
    assert_eq!(platform.cpus[1].apic_id, 2);
    assert_eq!(platform.rejected, 0);
}

#[test]
fn damaged_firmware_tables_are_refused() {
    assert!(acpi::parse(&firmware(&[]), 0).is_none());
    let mut memory = firmware(&[processors()]);
    memory[0x800] = 0;
    assert!(acpi::parse(&memory, 0x800).is_none());
    let mut memory = firmware(&[processors()]);
    memory[0x1004] ^= 1;
    assert!(acpi::parse(&memory, 0x800).is_none());
    let mut memory = firmware(&[processors()]);
    memory[0x2030] ^= 1;
    let platform = acpi::parse(&memory, 0x800).unwrap();
    assert_eq!((platform.cpu_count, platform.rejected), (0, 1));
}

#[test]
fn firmware_describes_buses_and_remapping() {
    let mut window = vec![0u8; 8];
    window.extend_from_slice(&0xE000_0000u64.to_le_bytes());
    window.extend_from_slice(&[0, 0, 0, 255, 0, 0, 0, 0]);
    let mut units = vec![0u8; 12];
    units.extend_from_slice(&[0, 0, 16, 0, 1, 0, 0, 0, 0, 0, 0, 0, 0, 0, 0, 0]);
    let memory = firmware(&[description(b"MCFG", &window), description(b"DMAR", &units)]);
    let platform = acpi::parse(&memory, 0x800).unwrap();
    assert_eq!(platform.ecam_base, 0xE000_0000);
    assert_eq!((platform.ecam_bus_start, platform.ecam_bus_end), (0, 255));
    assert!(platform.dmar_present && platform.dmar_include_all);
    assert_eq!(platform.dmar_units, 1);
    assert_eq!(platform.enabled(), 0);
}
