//! What the loader decides between reading the images and the jump: how memory
//! is classified, how much the direct map covers, the bootstrap tables and the
//! hand-off.

use vstd::prelude::*;

use crate::loader::elf::{self, Image, Segment, MAX_SEGMENTS};
use crate::loader::package::Directory;
use crate::loader::paging::{
    in_range, page_at, page_refused, pages_mapped, range_entry, Error, Pool, Tables,
    LARGE_PAGE_SIZE, PHYSICAL_LIMIT,
};
use crate::loader::pool::{growing_lacks_less, lacking_is_bounded, need, spare};
use crate::page_table::{
    apart_within_a_period, descend, descend_and_lookup, same_page, span, NO_EXECUTE, WRITABLE,
};
use crate::protocol::{
    memory_type, region_kind, BootInfo, BootModule, MemoryRegion, BOOTINFO_MAGIC,
    BOOTINFO_VERSION_MAJOR, BOOTINFO_VERSION_MINOR, BOOT_INFO_LEN, BOOT_MODULE_LEN, HHDM_BASE,
    KERNEL_IMAGE_BASE, MAX_MEMORY_REGIONS, MAX_MODULES, MEMORY_REGION_LEN, PAGE_SIZE,
};

verus! {

/// Pages reserved for the kernel's initial stack.
pub const BOOT_STACK_PAGES: u64 = 16;

/// Upper bound on the direct map. Beyond this the loader refuses rather than
/// building a hierarchy whose size it did not plan for.
pub const MAX_DIRECT_MAP_GIB: u64 = 64;

/// Bytes of a gibibyte.
pub const GIB: u64 = 0x4000_0000;

/// Firmware memory type of loader code.
pub const LOADER_CODE: u32 = 1;

/// Firmware memory type of loader data.
pub const LOADER_DATA: u32 = 2;

/// Firmware memory type of boot services code.
pub const BOOT_SERVICES_CODE: u32 = 3;

/// Firmware memory type of boot services data.
pub const BOOT_SERVICES_DATA: u32 = 4;

/// Firmware memory type of runtime services code.
pub const RUNTIME_SERVICES_CODE: u32 = 5;

/// Firmware memory type of runtime services data.
pub const RUNTIME_SERVICES_DATA: u32 = 6;

/// Firmware memory type of free memory.
pub const CONVENTIONAL: u32 = 7;

/// Firmware memory type of memory with errors.
pub const UNUSABLE: u32 = 8;

/// Firmware memory type of ACPI tables that may be overwritten once read.
pub const ACPI_RECLAIM: u32 = 9;

/// Firmware memory type of ACPI memory that must be kept.
pub const ACPI_NON_VOLATILE: u32 = 10;

/// Firmware memory type of device registers.
pub const MMIO: u32 = 11;

/// Firmware memory type of device ports.
pub const MMIO_PORT_SPACE: u32 = 12;

/// A memory type names real RAM: one of the firmware's types from loader code
/// to free memory, one of its two ACPI types, or one of the loader's own.
pub open spec fn names_ram(kind: u32) -> bool {
    ||| LOADER_CODE <= kind <= CONVENTIONAL
    ||| kind == ACPI_RECLAIM
    ||| kind == ACPI_NON_VOLATILE
    ||| kind == memory_type::KERNEL_IMAGE
    ||| kind == memory_type::MODULES
    ||| kind == memory_type::BOOT_RECLAIMABLE
}

/// True for memory types that name real RAM the kernel could hold pages in.
///
/// An allow list rather than an exclusion of the device types: firmware also
/// reports address-space windows as reserved, and a window at the top of the
/// address space would size the direct map for memory that does not exist.
pub fn is_ram(kind: u32) -> (yes: bool)
    ensures
        yes == names_ram(kind),
{
    match kind {
        CONVENTIONAL
        | BOOT_SERVICES_CODE
        | BOOT_SERVICES_DATA
        | LOADER_CODE
        | LOADER_DATA
        | RUNTIME_SERVICES_CODE
        | RUNTIME_SERVICES_DATA
        | ACPI_RECLAIM
        | ACPI_NON_VOLATILE => true,
        other => other == memory_type::KERNEL_IMAGE || other == memory_type::MODULES || other
            == memory_type::BOOT_RECLAIMABLE,
    }
}

/// The category of a memory type.
pub open spec fn category(kind: u32) -> u32 {
    if kind == CONVENTIONAL || kind == BOOT_SERVICES_CODE || kind == BOOT_SERVICES_DATA {
        region_kind::USABLE
    } else if kind == LOADER_CODE || kind == LOADER_DATA || kind == memory_type::BOOT_RECLAIMABLE {
        region_kind::BOOT_RECLAIMABLE
    } else if kind == RUNTIME_SERVICES_CODE || kind == RUNTIME_SERVICES_DATA {
        region_kind::FIRMWARE_RUNTIME
    } else if kind == ACPI_RECLAIM {
        region_kind::ACPI_RECLAIMABLE
    } else if kind == ACPI_NON_VOLATILE {
        region_kind::ACPI_NVS
    } else if kind == MMIO || kind == MMIO_PORT_SPACE {
        region_kind::MMIO
    } else if kind == UNUSABLE {
        region_kind::UNUSABLE
    } else if kind == memory_type::KERNEL_IMAGE {
        region_kind::KERNEL_IMAGE
    } else if kind == memory_type::MODULES {
        region_kind::MODULES
    } else {
        region_kind::RESERVED
    }
}

/// Sorts a firmware memory type into the categories the kernel distinguishes.
pub fn classify(kind: u32) -> (region: u32)
    ensures
        region == category(kind),
{
    match kind {
        CONVENTIONAL | BOOT_SERVICES_CODE | BOOT_SERVICES_DATA => region_kind::USABLE,
        LOADER_CODE | LOADER_DATA => region_kind::BOOT_RECLAIMABLE,
        RUNTIME_SERVICES_CODE | RUNTIME_SERVICES_DATA => region_kind::FIRMWARE_RUNTIME,
        ACPI_RECLAIM => region_kind::ACPI_RECLAIMABLE,
        ACPI_NON_VOLATILE => region_kind::ACPI_NVS,
        MMIO | MMIO_PORT_SPACE => region_kind::MMIO,
        UNUSABLE => region_kind::UNUSABLE,
        memory_type::KERNEL_IMAGE => region_kind::KERNEL_IMAGE,
        memory_type::MODULES => region_kind::MODULES,
        memory_type::BOOT_RECLAIMABLE => region_kind::BOOT_RECLAIMABLE,
        _ => region_kind::RESERVED,
    }
}

/// Memory the kernel may hand out is RAM, and no kind of RAM is taken for a
/// device or for unusable memory.
pub proof fn usable_memory_is_ram(kind: u32)
    ensures
        category(kind) == region_kind::USABLE ==> names_ram(kind),
        names_ram(kind) ==> category(kind) != region_kind::MMIO && category(kind)
            != region_kind::UNUSABLE && category(kind) != region_kind::RESERVED,
{
}

/// A descriptor of the firmware's memory map.
#[derive(Clone, Copy, Debug, PartialEq, Eq, Structural)]
pub struct Descriptor {
    /// Memory type.
    pub kind: u32,
    /// Physical base.
    pub phys_start: u64,
    /// Pages.
    pub page_count: u64,
}

impl Descriptor {
    /// One past its last byte.
    pub open spec fn end(self) -> int {
        self.phys_start + self.page_count * 0x1000
    }
}

/// Every descriptor ends inside the address space.
pub open spec fn map_ok(map: Seq<Descriptor>) -> bool {
    forall|i: int| 0 <= i < map.len() ==> (#[trigger] map[i]).end() <= u64::MAX
}

/// One past the highest byte that the first `n` descriptors describe, RAM alone
/// or all of it.
pub open spec fn highest(map: Seq<Descriptor>, ram: bool, n: int) -> int
    decreases n,
{
    if n <= 0 {
        0
    } else {
        let below = highest(map, ram, n - 1);
        let end = map[n - 1].end();
        if (!ram || names_ram(map[n - 1].kind)) && end > below {
            end
        } else {
            below
        }
    }
}

/// The extents of the firmware's memory map: RAM, and everything.
pub fn extents(map: &Vec<Descriptor>) -> (ends: (u64, u64))
    requires
        map_ok(map@),
    ensures
        ends.0 == highest(map@, true, map@.len() as int),
        ends.1 == highest(map@, false, map@.len() as int),
{
    let mut highest_ram: u64 = 0;
    let mut highest_any: u64 = 0;
    for i in 0..map.len()
        invariant
            map_ok(map@),
            highest_ram == highest(map@, true, i as int),
            highest_any == highest(map@, false, i as int),
    {
        let descriptor = map[i];
        assert(map@[i as int].end() <= u64::MAX);
        let end: u64 = descriptor.phys_start + descriptor.page_count * PAGE_SIZE;
        if end > highest_any {
            highest_any = end;
        }
        if is_ram(descriptor.kind) && end > highest_ram {
            highest_ram = end;
        }
    }
    (highest_ram, highest_any)
}

/// Gibibytes of the direct map: RAM rounded up, and at least one.
pub open spec fn gibibytes_for(highest_ram: u64) -> int {
    if highest_ram == 0 {
        1
    } else {
        (highest_ram + GIB - 1) / GIB as int
    }
}

/// Decides how much the direct map covers.
///
/// It covers whole gibibytes, so the tables need only large entries under one
/// page directory per gibibyte.
pub fn direct_map(highest_ram: u64, entries: usize) -> (result: Result<u64, &'static str>)
    ensures
        if gibibytes_for(highest_ram) > MAX_DIRECT_MAP_GIB {
            result matches Err(reason) && reason@ == "physical_memory_beyond_direct_map_bound"@
        } else if entries + 32 > MAX_MEMORY_REGIONS {
            result matches Err(reason) && reason@ == "memory_map_too_large"@
        } else {
            result matches Ok(gibibytes) && gibibytes == gibibytes_for(highest_ram)
        },
{
    let whole: u64 = highest_ram / GIB;
    let rounded: u64 = if highest_ram % GIB == 0 {
        whole
    } else {
        whole + 1
    };
    let gibibytes: u64 = if rounded == 0 {
        1
    } else {
        rounded
    };
    if gibibytes > MAX_DIRECT_MAP_GIB {
        return Err("physical_memory_beyond_direct_map_bound");
    }
    if entries > MAX_MEMORY_REGIONS - 32 {
        return Err("memory_map_too_large");
    }
    Ok(gibibytes)
}

/// Pages that suffice for the bootstrap tables.
pub open spec fn pool_size(kernel_pages: int, gibibytes: int) -> int {
    1 + 3 + 2 * gibibytes + 1 + ((kernel_pages + 511) / 512 + 1) + 4
}

/// Pages to reserve for the bootstrap tables.
///
/// One page directory per gibibyte for each of the two large-page ranges, one
/// page-directory-pointer table for each of the three ranges, one page directory
/// and the page tables for the kernel image, the topmost table, and a small
/// margin.
pub fn table_pool_pages(kernel_pages: u64, gibibytes: u64) -> (pages: usize)
    requires
        kernel_pages <= 0x8_0000,
        gibibytes <= MAX_DIRECT_MAP_GIB,
    ensures
        pages == pool_size(kernel_pages as int, gibibytes as int),
{
    let kernel_page_tables: u64 = (kernel_pages + 511) / 512 + 1;
    (1 + 3 + 2 * gibibytes + 1 + kernel_page_tables + 4) as usize
}

/// Layout of the hand-off block.
#[derive(Clone, Copy, Debug, PartialEq, Eq, Structural)]
pub struct HandoffLayout {
    /// Where the memory map starts.
    pub regions_offset: u64,
    /// Where the module directory starts.
    pub modules_offset: u64,
    /// Pages of the block.
    pub total_pages: u64,
}

/// Lays out the hand-off block: the root structure, the memory map and the
/// module directory, each on pages of its own.
pub fn handoff_layout() -> (layout: HandoffLayout)
    ensures
        layout.regions_offset % 0x1000 == 0,
        layout.modules_offset % 0x1000 == 0,
        BOOT_INFO_LEN <= layout.regions_offset < BOOT_INFO_LEN + 0x1000,
        layout.regions_offset + MAX_MEMORY_REGIONS * MEMORY_REGION_LEN <= layout.modules_offset
            < layout.regions_offset + MAX_MEMORY_REGIONS * MEMORY_REGION_LEN + 0x1000,
        layout.modules_offset + MAX_MODULES * BOOT_MODULE_LEN <= layout.total_pages * 0x1000
            < layout.modules_offset + MAX_MODULES * BOOT_MODULE_LEN + 0x1000,
{
    let info: u64 = BOOT_INFO_LEN as u64;
    let regions: u64 = (MAX_MEMORY_REGIONS * MEMORY_REGION_LEN) as u64;
    let modules: u64 = (MAX_MODULES * BOOT_MODULE_LEN) as u64;
    let regions_offset: u64 = (info + PAGE_SIZE - 1) / PAGE_SIZE * PAGE_SIZE;
    let modules_offset: u64 = (regions_offset + regions + PAGE_SIZE - 1) / PAGE_SIZE * PAGE_SIZE;
    let total: u64 = modules_offset + modules;
    HandoffLayout {
        regions_offset,
        modules_offset,
        total_pages: (total + PAGE_SIZE - 1) / PAGE_SIZE,
    }
}

/// Flags of the pages of a segment.
pub open spec fn flags_of(segment: Segment) -> u64 {
    (if segment.write {
        WRITABLE
    } else {
        0
    }) | (if segment.execute {
        0
    } else {
        NO_EXECUTE
    })
}

/// Flags of the pages of a segment: writable and executable only where the
/// segment says so.
pub fn segment_flags(segment: &Segment) -> (flags: u64)
    ensures
        flags == flags_of(*segment),
{
    let write: u64 = if segment.write {
        WRITABLE
    } else {
        0
    };
    let execute: u64 = if segment.execute {
        0
    } else {
        NO_EXECUTE
    };
    write | execute
}

/// An image whose segments lie inside its extent.
pub open spec fn image_ok(kernel: Image) -> bool {
    &&& kernel.segment_count <= MAX_SEGMENTS
    &&& kernel.base <= kernel.end
    &&& forall|k: int|
        0 <= k < kernel.segment_count ==> {
            &&& kernel.base <= (#[trigger] kernel.segments@[k]).vaddr
            &&& kernel.segments@[k].page_end() <= kernel.end
        }
}

/// Where a segment of an image placed at `phys` goes.
pub fn segment_destination(kernel: &Image, phys: u64, segment: &Segment) -> (destination: u64)
    requires
        kernel.base <= segment.vaddr,
        phys + (segment.vaddr - kernel.base) <= u64::MAX,
    ensures
        destination == phys + (segment.vaddr - kernel.base),
{
    phys + (segment.vaddr - kernel.base)
}

/// `count` pages translate in order, with the given flags.
pub open spec fn mapped(
    tables: Tables,
    vaddr: u64,
    phys: u64,
    count: int,
    flags: u64,
    level: nat,
) -> bool {
    forall|i: int, w: u64|
        0 <= i < count && #[trigger] same_page(w, page_at(vaddr, i, level), level)
            ==> tables.translation(w) == Some((level, range_entry(phys, i, flags, level)))
}

/// The first `n` segments of an image placed at `phys` are mapped.
pub open spec fn segments_mapped(tables: Tables, kernel: Image, phys: u64, n: int) -> bool {
    forall|k: int|
        0 <= k < n ==> mapped(
            tables,
            (#[trigger] kernel.segments@[k]).vaddr,
            (phys + (kernel.segments@[k].vaddr - kernel.base)) as u64,
            kernel.segments@[k].page_count(),
            flags_of(kernel.segments@[k]),
            0,
        )
}

/// `w` lies in a page of one of the first `n` segments of an image.
pub open spec fn in_segments(w: u64, kernel: Image, n: int) -> bool {
    exists|k: int|
        0 <= k < n && in_range(
            w,
            (#[trigger] kernel.segments@[k]).vaddr,
            kernel.segments@[k].page_count(),
            0,
        )
}

/// Outside the first `n` segments of an image nothing translates otherwise.
#[verifier::opaque]
pub open spec fn kept_outside(before: Tables, after: Tables, kernel: Image, n: int) -> bool {
    forall|w: u64|
        !in_segments(w, kernel, n) ==> #[trigger] after.translation(w) == before.translation(w)
}

proof fn kept_further_outside(first: Tables, before: Tables, after: Tables, kernel: Image, k: int)
    requires
        0 <= k,
        kept_outside(first, before, kernel, k),
        after.agrees_except(
            before,
            |w: u64|
                in_range(w, kernel.segments@[k].vaddr, kernel.segments@[k].page_count(), 0),
        ),
    ensures
        kept_outside(first, after, kernel, k + 1),
{
    reveal(kept_outside);
    assert forall|w: u64| !in_segments(w, kernel, k + 1) implies #[trigger] after.translation(w)
        == first.translation(w) by {
        assert(!in_range(w, kernel.segments@[k].vaddr, kernel.segments@[k].page_count(), 0));
        if in_segments(w, kernel, k) {
            let j = choose|j: int|
                0 <= j < k && in_range(
                    w,
                    (#[trigger] kernel.segments@[j]).vaddr,
                    kernel.segments@[j].page_count(),
                    0,
                );
            assert(in_segments(w, kernel, k + 1));
        }
        assert(before.translation(w) == first.translation(w));
    }
}

proof fn mapped_stays(
    before: Tables,
    after: Tables,
    vaddr: u64,
    phys: u64,
    count: int,
    flags: u64,
    level: nat,
)
    requires
        after.keeps(before),
        mapped(before, vaddr, phys, count, flags, level),
    ensures
        mapped(after, vaddr, phys, count, flags, level),
{
    assert forall|i: int, w: u64|
        0 <= i < count && #[trigger] same_page(
            w,
            page_at(vaddr, i, level),
            level,
        ) implies after.translation(w) == Some((level, range_entry(phys, i, flags, level))) by {
        assert(before.translation(w) is Some);
    }
}

proof fn segments_stay(before: Tables, after: Tables, kernel: Image, phys: u64, n: int)
    requires
        after.keeps(before),
        segments_mapped(before, kernel, phys, n),
    ensures
        segments_mapped(after, kernel, phys, n),
{
    assert forall|k: int| 0 <= k < n implies mapped(
        after,
        (#[trigger] kernel.segments@[k]).vaddr,
        (phys + (kernel.segments@[k].vaddr - kernel.base)) as u64,
        kernel.segments@[k].page_count(),
        flags_of(kernel.segments@[k]),
        0,
    ) by {
        mapped_stays(
            before,
            after,
            kernel.segments@[k].vaddr,
            (phys + (kernel.segments@[k].vaddr - kernel.base)) as u64,
            kernel.segments@[k].page_count(),
            flags_of(kernel.segments@[k]),
            0,
        );
    }
}

/// A kernel image that can be placed at `phys`: it starts at its base, its
/// segments are whole pages, and no two of them share one.
pub open spec fn placeable(kernel: Image, phys: u64) -> bool {
    &&& image_ok(kernel)
    &&& kernel.base == KERNEL_IMAGE_BASE
    &&& kernel.end > kernel.base
    &&& phys % 0x1000 == 0
    &&& forall|k: int|
        0 <= k < kernel.segment_count ==> (#[trigger] kernel.segments@[k]).vaddr % 0x1000 == 0
    &&& forall|j: int, k: int|
        0 <= j < k < kernel.segment_count ==> !(#[trigger] kernel.segments@[j]).meets(
            #[trigger] kernel.segments@[k],
        )
}

/// `v` lies in a page of a segment.
pub open spec fn in_segment(segment: Segment, v: int) -> bool {
    segment.vaddr <= v < segment.page_end()
}

/// Of the addresses of the image, only those of its first `n` segments
/// translate.
pub open spec fn rest_is_clear(tables: Tables, kernel: Image, n: int) -> bool {
    forall|v: u64|
        kernel.base <= v < kernel.end && (forall|j: int|
            0 <= j < n ==> !in_segment(#[trigger] kernel.segments@[j], v as int)) ==> (
        #[trigger] tables.translation(v)) is None
}

/// Addresses of the image that share a page are equal up to their offset.
proof fn image_pages_differ(v: u64, w: u64)
    requires
        v >= KERNEL_IMAGE_BASE,
        w >= KERNEL_IMAGE_BASE,
        same_page(v, w, 0),
    ensures
        v / 0x1000 == w / 0x1000,
{
    block_number(v as int, 0x20_0000, 0x800_0000);
    block_number(w as int, 0x20_0000, 0x800_0000);
    let a = v as int / 0x20_0000;
    let b = w as int / 0x20_0000;
    assert(a % 0x800_0000 == b % 0x800_0000);
    assert(a == b);
    vstd::arithmetic::div_mod::lemma_div_denominator(v as int, 0x1000, 512);
    vstd::arithmetic::div_mod::lemma_div_denominator(w as int, 0x1000, 512);
    vstd::arithmetic::div_mod::lemma_fundamental_div_mod(v as int / 0x1000, 512);
    vstd::arithmetic::div_mod::lemma_fundamental_div_mod(w as int / 0x1000, 512);
}

/// The number of a block inside a window is its number modulo the blocks of the
/// window.
proof fn block_number(v: int, d: int, m: int)
    requires
        v >= 0,
        d > 0,
        m > 0,
    ensures
        v % (d * m) / d == (v / d) % m,
{
    vstd::arithmetic::div_mod::lemma_mod_breakdown(v, d, m);
    vstd::arithmetic::div_mod::lemma_mod_bound(v, d);
    vstd::arithmetic::div_mod::lemma_div_multiples_vanish_fancy((v / d) % m, v % d, d);
}

/// A page of a segment lies in no other segment.
proof fn segments_are_apart(kernel: Image, phys: u64, k: int, v: int)
    requires
        placeable(kernel, phys),
        0 <= k < kernel.segment_count,
        in_segment(kernel.segments@[k], v),
    ensures
        forall|j: int|
            0 <= j < k ==> !in_segment(#[trigger] kernel.segments@[j], v),
{
    assert forall|j: int| 0 <= j < k implies !in_segment(#[trigger] kernel.segments@[j], v) by {
        assert(!kernel.segments@[j].meets(kernel.segments@[k]));
    }
}

/// A page of a segment that could not be mapped although nothing translates it
/// lacked a table.
proof fn only_tables_can_lack(
    before: Tables,
    after: Tables,
    segment: Segment,
    phys: u64,
    done: int,
    flags: u64,
    e: Error,
)
    requires
        segment.vaddr >= KERNEL_IMAGE_BASE,
        segment.page_end() <= u64::MAX,
        segment.vaddr % 0x1000 == 0,
        phys % 0x1000 == 0,
        phys + segment.page_count() * 0x1000 <= PHYSICAL_LIMIT,
        0 <= done < segment.page_count(),
        pages_mapped(before, after, segment.vaddr, phys, done, flags, 0),
        page_refused(after, segment.vaddr, phys, done, 0, e),
        before.translation(page_at(segment.vaddr, done, 0)) is None,
    ensures
        e == Error::OutOfTables,
{
    let v = page_at(segment.vaddr, done, 0);
    assert(span(0) == 0x1000);
    assert(v == segment.vaddr + done * 0x1000);
    if in_range(v, segment.vaddr, done, 0) {
        let i = choose|i: int| 0 <= i < done && #[trigger] same_page(
            v,
            page_at(segment.vaddr, i, 0),
            0,
        );
        assert(page_at(segment.vaddr, i, 0) == segment.vaddr + i * 0x1000);
        image_pages_differ(v, page_at(segment.vaddr, i, 0));
        assert(v as int / 0x1000 == segment.vaddr as int / 0x1000 + done);
        assert((segment.vaddr + i * 0x1000) / 0x1000 == segment.vaddr as int / 0x1000 + i);
    }
    assert(after.translation(v) is None);
    descend_and_lookup(
        after.pool_spec().base_spec() as int,
        after.pool_spec().contents(),
        0,
        3,
        0,
        v,
    );
    assert(page_at(phys, done, 0) == phys + done * 0x1000);
}

/// Mapping a segment leaves the other addresses of the image alone.
proof fn segment_clears_no_more(
    before: Tables,
    after: Tables,
    kernel: Image,
    phys: u64,
    k: int,
    destination: u64,
)
    requires
        placeable(kernel, phys),
        0 <= k < kernel.segment_count,
        rest_is_clear(before, kernel, k),
        pages_mapped(
            before,
            after,
            kernel.segments@[k].vaddr,
            destination,
            kernel.segments@[k].page_count(),
            flags_of(kernel.segments@[k]),
            0,
        ),
    ensures
        rest_is_clear(after, kernel, k + 1),
{
    let segment = kernel.segments@[k];
    assert(span(0) == 0x1000);
    assert forall|v: u64|
        kernel.base <= v < kernel.end && (forall|j: int|
            0 <= j < k + 1 ==> !in_segment(
                #[trigger] kernel.segments@[j],
                v as int,
            )) implies (#[trigger] after.translation(v)) is None by {
        assert(!in_segment(kernel.segments@[k], v as int));
        if in_range(v, segment.vaddr, segment.page_count(), 0) {
            let i = choose|i: int| 0 <= i < segment.page_count() && #[trigger] same_page(
                v,
                page_at(segment.vaddr, i, 0),
                0,
            );
            assert(page_at(segment.vaddr, i, 0) == segment.vaddr + i * 0x1000);
            image_pages_differ(v, page_at(segment.vaddr, i, 0));
            assert((segment.vaddr + i * 0x1000) / 0x1000 == segment.vaddr as int / 0x1000 + i);
            assert(segment.vaddr <= v < segment.page_end());
        }
        assert(before.translation(v) is None);
        assert(after.translation(v) == before.translation(v));
    }
}

/// A segment of a placeable image that nothing occupies is refused only for
/// want of a table.
proof fn refused_segment_lacks_tables(
    before: Tables,
    after: Tables,
    kernel: Image,
    phys: u64,
    k: int,
    destination: u64,
    error: Error,
)
    requires
        before.wf(),
        after.wf(),
        image_ok(kernel),
        placeable(kernel, phys),
        phys + (kernel.end - kernel.base) <= PHYSICAL_LIMIT,
        rest_is_clear(before, kernel, k),
        0 <= k < kernel.segment_count,
        destination == phys + (kernel.segments@[k].vaddr - kernel.base),
        exists|done: int| #[trigger]
            pages_mapped(
                before,
                after,
                kernel.segments@[k].vaddr,
                destination,
                done,
                flags_of(kernel.segments@[k]),
                0,
            ) && 0 <= done < kernel.segments@[k].page_count() && page_refused(
                after,
                kernel.segments@[k].vaddr,
                destination,
                done,
                0,
                error,
            ),
    ensures
        error == Error::OutOfTables,
{
    let segment = kernel.segments@[k];
    let done = choose|done: int| #[trigger]
        pages_mapped(
            before,
            after,
            segment.vaddr,
            destination,
            done,
            flags_of(segment),
            0,
        ) && 0 <= done < segment.page_count() && page_refused(
            after,
            segment.vaddr,
            destination,
            done,
            0,
            error,
        );
    let v = page_at(segment.vaddr, done, 0);
    assert(segment.page_end() <= kernel.end);
    assert(span(0) == 0x1000);
    assert(v == segment.vaddr + done * 0x1000);
    assert(in_segment(segment, v as int));
    segments_are_apart(kernel, phys, k, v as int);
    assert(before.translation(v) is None);
    assert(destination as int % 0x1000 == 0);
    only_tables_can_lack(before, after, segment, destination, done, flags_of(segment), error);
}

/// Mapping a range stopped at a page that could not be mapped.
pub open spec fn range_refused(
    before: Tables,
    after: Tables,
    vaddr: u64,
    phys: u64,
    count: int,
    flags: u64,
    level: nat,
) -> bool {
    exists|done: int, e: Error|
        pages_mapped(before, after, vaddr, phys, done, flags, level) && 0 <= done < count
            && #[trigger] page_refused(after, vaddr, phys, done, level, e)
}

/// The segments before segment `k` were mapped, and a page of that one could not
/// be.
pub open spec fn segment_refused(
    before: Tables,
    after: Tables,
    kernel: Image,
    phys: u64,
    k: int,
) -> bool {
    let segment = kernel.segments@[k];
    &&& 0 <= k < kernel.segment_count
    &&& segments_mapped(before, kernel, phys, k)
    &&& range_refused(
        before,
        after,
        segment.vaddr,
        (phys + (segment.vaddr - kernel.base)) as u64,
        segment.page_count(),
        flags_of(segment),
        0,
    )
}

/// The identity map of fresh tables could not be made.
pub open spec fn identity_refused(pool: Pool, count: int) -> bool {
    exists|empty: Tables, after: Tables|
        {
            &&& empty.root_spec() == pool.base_spec()
            &&& empty.free() == pool.pages_spec() - 1
            &&& forall|v: u64| (#[trigger] empty.translation(v)) is None
            &&& #[trigger] range_refused(empty, after, 0, 0, count, WRITABLE, 1)
        }
}

/// The direct map could not be made behind the identity map.
pub open spec fn direct_refused(pool: Pool, count: int) -> bool {
    exists|identity: Tables, after: Tables|
        {
            &&& identity.root_spec() == pool.base_spec()
            &&& mapped(identity, 0, 0, count, WRITABLE, 1)
            &&& forall|v: u64|
                !in_range(v, 0, count, 1) ==> (#[trigger] identity.translation(v)) is None
            &&& #[trigger] range_refused(
                identity,
                after,
                HHDM_BASE,
                0,
                count,
                WRITABLE | NO_EXECUTE,
                1,
            )
        }
}

/// A segment of the kernel could not be mapped behind the identity map and the
/// direct map.
pub open spec fn kernel_refused(pool: Pool, count: int, kernel: Image, phys: u64) -> bool {
    exists|before: Tables, after: Tables, k: int|
        {
            &&& before.root_spec() == pool.base_spec()
            &&& mapped(before, 0, 0, count, WRITABLE, 1)
            &&& mapped(before, HHDM_BASE, 0, count, WRITABLE | NO_EXECUTE, 1)
            &&& #[trigger] segment_refused(before, after, kernel, phys, k)
        }
}

#[verifier::rlimit(100)]
#[verifier::spinoff_prover]
fn map_segments(tables: &mut Tables, kernel: &Image, phys: u64) -> (done: bool)
    requires
        old(tables).wf(),
        image_ok(*kernel),
        phys + (kernel.end - kernel.base) <= PHYSICAL_LIMIT,
    ensures
        final(tables).wf(),
        final(tables).root_spec() == old(tables).root_spec(),
        final(tables).keeps(*old(tables)),
        done ==> segments_mapped(*final(tables), *kernel, phys, kernel.segment_count as int),
        !done ==> exists|before: Tables, k: int|
            before.keeps(*old(tables)) && before.root_spec() == old(tables).root_spec()
                && #[trigger] segment_refused(before, *final(tables), *kernel, phys, k),
        done ==> kept_outside(
            *old(tables),
            *final(tables),
            *kernel,
            kernel.segment_count as int,
        ),
        placeable(*kernel, phys) && rest_is_clear(*old(tables), *kernel, 0) && spare(
            *old(tables),
            0,
            kernel.base as int,
            kernel.end as int,
        ) >= 0 ==> done,
{
    let ghost sound = placeable(*kernel, phys) && rest_is_clear(*tables, *kernel, 0) && spare(
        *tables,
        0,
        kernel.base as int,
        kernel.end as int,
    ) >= 0;
    proof {
        reveal(kept_outside);
    }
    for k in 0..kernel.segment_count
        invariant
            tables.wf(),
            image_ok(*kernel),
            phys + (kernel.end - kernel.base) <= PHYSICAL_LIMIT,
            tables.root_spec() == old(tables).root_spec(),
            tables.keeps(*old(tables)),
            segments_mapped(*tables, *kernel, phys, k as int),
            kept_outside(*old(tables), *tables, *kernel, k as int),
            sound ==> placeable(*kernel, phys) && rest_is_clear(*tables, *kernel, k as int)
                && spare(*tables, 0, kernel.base as int, kernel.end as int) >= 0,
            sound == (placeable(*kernel, phys) && rest_is_clear(*old(tables), *kernel, 0) && spare(
                *old(tables),
                0,
                kernel.base as int,
                kernel.end as int,
            ) >= 0),
    {
        let ghost before = *tables;
        let segment = kernel.segments[k];
        assert(kernel.segments@[k as int].page_end() <= kernel.end);
        let destination: u64 = segment_destination(kernel, phys, &segment);
        let result = tables.map_range(
            segment.vaddr,
            destination,
            segment.pages(),
            segment_flags(&segment),
        );
        proof {
            assert(tables.keeps(*old(tables))) by {
                assert forall|w: u64| old(tables).translation(w) is Some implies (
                #[trigger] tables.translation(w)) == old(tables).translation(w) by {
                    assert(before.translation(w) == old(tables).translation(w));
                }
            }
            segments_stay(before, *tables, *kernel, phys, k as int);
        }
        match result {
            Err(error) => {
                proof {
                    if sound {
                        refused_segment_lacks_tables(
                            before,
                            *tables,
                            *kernel,
                            phys,
                            k as int,
                            destination,
                            error,
                        );
                        assert(spare(before, 0, kernel.base as int, kernel.end as int) < 0);
                    }
                    assert(segment_refused(before, *tables, *kernel, phys, k as int));
                }
                return false;
            },
            Ok(()) => {},
        }
        proof {
            let done = choose|done: int| #[trigger]
                pages_mapped(
                    before,
                    *tables,
                    segment.vaddr,
                    destination,
                    done,
                    flags_of(segment),
                    0,
                ) && done == segment.page_count();
            assert(mapped(
                *tables,
                segment.vaddr,
                destination,
                done,
                flags_of(segment),
                0,
            ));
            kept_further_outside(*old(tables), before, *tables, *kernel, k as int);
            if sound {
                segment_clears_no_more(before, *tables, *kernel, phys, k as int, destination);
                assert(spare(*tables, 0, kernel.base as int, kernel.end as int) >= spare(
                    before,
                    0,
                    kernel.base as int,
                    kernel.end as int,
                ));
            }
        }
    }
    true
}

/// Index of large page `i` of a range that starts at a multiple of 512 GiB.
proof fn large_page_index(start: u64, i: int)
    requires
        start == 0 || start == HHDM_BASE,
        0 <= i <= 0x8000,
    ensures
        page_at(start, i, 1) == start + i * 0x20_0000,
        page_at(start, i, 1) as int / 0x20_0000 == start as int / 0x20_0000 + i,
        page_at(start, i, 1) as int % 0x20_0000 == 0,
{
    assert(span(1) == 0x20_0000);
}

/// Addresses that share a large page agree on its number inside the address
/// space.
proof fn large_pages_agree(v: u64, w: u64)
    requires
        same_page(v, w, 1),
    ensures
        (v as int / 0x20_0000) % 0x800_0000 == (w as int / 0x20_0000) % 0x800_0000,
{
    assert(span(1) == 0x20_0000 && span(2) == 0x4000_0000);
    block_number(v as int, 0x4000_0000, 0x4_0000);
    block_number(w as int, 0x4000_0000, 0x4_0000);
    let a = v as int / 0x20_0000;
    let b = w as int / 0x20_0000;
    vstd::arithmetic::div_mod::lemma_div_denominator(v as int, 0x20_0000, 512);
    vstd::arithmetic::div_mod::lemma_div_denominator(w as int, 0x20_0000, 512);
    assert((a / 512) % 0x4_0000 == (b / 512) % 0x4_0000);
    assert(a % 512 == b % 512);
    vstd::arithmetic::div_mod::lemma_mod_breakdown(a, 512, 0x4_0000);
    vstd::arithmetic::div_mod::lemma_mod_breakdown(b, 512, 0x4_0000);
}

/// A large page of a range is not one of those before it.
proof fn large_pages_differ(start: u64, done: int)
    requires
        start == 0 || start == HHDM_BASE,
        0 <= done < 0x8000,
    ensures
        !in_range(page_at(start, done, 1), start, done, 1),
{
    let v = page_at(start, done, 1);
    if in_range(v, start, done, 1) {
        let i = choose|i: int| 0 <= i < done && #[trigger] same_page(v, page_at(start, i, 1), 1);
        let n = start as int / 0x20_0000;
        let a = v as int / 0x20_0000;
        let b = page_at(start, i, 1) as int / 0x20_0000;
        assert(a == n + done) by {
            large_page_index(start, done);
        }
        assert(b == n + i) by {
            large_page_index(start, i);
        }
        assert(a % 0x800_0000 == b % 0x800_0000) by {
            large_pages_agree(v, page_at(start, i, 1));
        }
        apart_within_a_period(a, b);
    }
}

/// The direct map and the image lie apart from the identity map, and the image
/// from the direct map.
proof fn ranges_are_apart(v: u64, start: u64, count: int)
    requires
        start == 0 || start == HHDM_BASE,
        0 <= count <= 0x8000,
        v >= KERNEL_IMAGE_BASE || start == 0 && HHDM_BASE <= v < HHDM_BASE + 0x8000 * 0x20_0000,
    ensures
        !in_range(v, start, count, 1),
{
    if in_range(v, start, count, 1) {
        let i = choose|i: int| 0 <= i < count && #[trigger] same_page(v, page_at(start, i, 1), 1);
        let a = v as int / 0x20_0000;
        let b = page_at(start, i, 1) as int / 0x20_0000;
        assert(b == start as int / 0x20_0000 + i) by {
            large_page_index(start, i);
        }
        assert(a % 0x800_0000 == b % 0x800_0000) by {
            large_pages_agree(v, page_at(start, i, 1));
        }
        assert(0x7FF_FC00_0000 <= a < 0x800_0000_0000);
        upper_block(a);
        if start == 0 {
            assert(b % 0x800_0000 == i);
        } else {
            assert(b == 0x7FF_FC00_0000 + i);
            upper_block(b);
            assert(0x7FF_FFFF_FC00 <= a);
        }
    }
}

/// The position of a large page of the upper half among those a hierarchy tells
/// apart.
proof fn upper_block(a: int)
    requires
        0x7FF_F800_0000 <= a < 0x800_0000_0000,
    ensures
        a % 0x800_0000 == a - 0x7FF_F800_0000,
{
}

/// A large page of a range that nothing translates, and below which no lowest
/// table hangs, can only lack a table.
proof fn only_tables_can_lack_there(
    before: Tables,
    after: Tables,
    start: u64,
    done: int,
    flags: u64,
    e: Error,
)
    requires
        start == 0 || start == HHDM_BASE,
        0 <= done < 0x8000,
        pages_mapped(before, after, start, 0, done, flags, 1),
        page_refused(after, start, 0, done, 1, e),
        after.adds_no_lowest(before),
        before.translation(page_at(start, done, 1)) is None,
        !(before.way(0, page_at(start, done, 1)) is Reached),
    ensures
        e == Error::OutOfTables,
{
    let v = page_at(start, done, 1);
    large_page_index(start, done);
    large_page_index(0, done);
    large_pages_differ(start, done);
    assert(span(1) == 0x20_0000);
    assert(after.translation(v) is None);
    assert(!(after.way(0, v) is Reached));
    descend_and_lookup(
        after.pool_spec().base_spec() as int,
        after.pool_spec().contents(),
        0,
        3,
        1,
        v,
    );
    reveal_with_fuel(descend, 5);
}

/// Blocks of the identity map, of the direct map and of the image.
proof fn blocks_are_counted(gibibytes: u64, end: u64, t: Tables)
    requires
        1 <= gibibytes <= MAX_DIRECT_MAP_GIB,
        end > KERNEL_IMAGE_BASE,
    ensures
        need(t, 1, 0, gibibytes * 0x4000_0000) <= gibibytes + 1,
        need(t, 1, HHDM_BASE as int, HHDM_BASE + gibibytes * 0x4000_0000) <= gibibytes + 1,
        need(t, 0, KERNEL_IMAGE_BASE as int, end as int) <= (end - KERNEL_IMAGE_BASE + 0x1F_FFFF)
            / 0x20_0000 + 3,
{
    assert(span(1) == 0x20_0000 && span(2) == 0x4000_0000 && span(3) == 0x80_0000_0000);
    let size = gibibytes * 0x4000_0000;
    assert((size - 1) / 0x4000_0000 == gibibytes - 1);
    assert((HHDM_BASE + size - 1) / 0x4000_0000 == HHDM_BASE as int / 0x4000_0000 + gibibytes - 1);
    assert((size - 1) / 0x80_0000_0000 == 0);
    assert((HHDM_BASE + size - 1) / 0x80_0000_0000 == HHDM_BASE as int / 0x80_0000_0000);
    lacking_is_bounded(t, 1, 0, gibibytes as int);
    lacking_is_bounded(t, 2, 0, 1);
    lacking_is_bounded(t, 1, HHDM_BASE as int / 0x4000_0000, gibibytes as int);
    lacking_is_bounded(t, 2, HHDM_BASE as int / 0x80_0000_0000, 1);
    let first = KERNEL_IMAGE_BASE as int;
    let small = (end - 1) / 0x20_0000 - first / 0x20_0000 + 1;
    let middle = (end - 1) / 0x4000_0000 - first / 0x4000_0000 + 1;
    assert(small == (end - KERNEL_IMAGE_BASE + 0x1F_FFFF) / 0x20_0000);
    assert(1 <= middle <= 2);
    assert((end - 1) / 0x80_0000_0000 - first / 0x80_0000_0000 + 1 == 1);
    lacking_is_bounded(t, 0, first / 0x20_0000, small);
    lacking_is_bounded(t, 1, first / 0x4000_0000, middle);
    lacking_is_bounded(t, 2, first / 0x80_0000_0000, 1);
}

/// Growing tables need no more than before.
proof fn growing_needs_less(before: Tables, after: Tables, level: nat, lo: int, hi: int)
    requires
        after.reaches(before),
    ensures
        need(after, level, lo, hi) <= need(before, level, lo, hi),
{
    growing_lacks_less(
        before,
        after,
        0,
        lo / span(1),
        (hi - 1) / span(1) - lo / span(1) + 1,
    );
    growing_lacks_less(
        before,
        after,
        1,
        lo / span(2),
        (hi - 1) / span(2) - lo / span(2) + 1,
    );
    growing_lacks_less(
        before,
        after,
        2,
        lo / span(3),
        (hi - 1) / span(3) - lo / span(3) + 1,
    );
}

/// Builds the bootstrap tables: the identity map of the transfer, the direct
/// map and the kernel image.
///
/// The identity map stays executable: the instructions between loading the
/// tables and jumping into the kernel run at their physical addresses. The
/// kernel's own tables replace it. A pool of the size
/// [`table_pool_pages`] gives does not run dry.
#[verifier::rlimit(40)]
pub fn build_tables(pool: Pool, gibibytes: u64, kernel: &Image, kernel_phys: u64) -> (result: Result<
    Tables,
    &'static str,
>)
    requires
        pool.wf(),
        pool.used_spec() == 0,
        gibibytes <= MAX_DIRECT_MAP_GIB,
        image_ok(*kernel),
        kernel_phys + (kernel.end - kernel.base) <= PHYSICAL_LIMIT,
    ensures
        match result {
            Ok(tables) => {
                &&& tables.wf()
                &&& tables.root_spec() == pool.base_spec()
                &&& tables.leaves_decide()
                &&& mapped(tables, 0, 0, (gibibytes * 512) as int, WRITABLE, 1)
                &&& mapped(
                    tables,
                    HHDM_BASE,
                    0,
                    (gibibytes * 512) as int,
                    WRITABLE | NO_EXECUTE,
                    1,
                )
                &&& segments_mapped(tables, *kernel, kernel_phys, kernel.segment_count as int)
                &&& forall|v: u64|
                    !in_range(v, 0, (gibibytes * 512) as int, 1) && !in_range(
                        v,
                        HHDM_BASE,
                        (gibibytes * 512) as int,
                        1,
                    ) && !in_segments(v, *kernel, kernel.segment_count as int) ==> (
                    #[trigger] tables.translation(v)) is None
            },
            Err(reason) => {
                ||| reason@ == "page_table_pool_exhausted"@ && pool.pages_spec() == 0
                ||| reason@ == "identity_map_failed"@ && identity_refused(
                    pool,
                    (gibibytes * 512) as int,
                )
                ||| reason@ == "direct_map_failed"@ && direct_refused(
                    pool,
                    (gibibytes * 512) as int,
                )
                ||| reason@ == "kernel_map_failed"@ && kernel_refused(
                    pool,
                    (gibibytes * 512) as int,
                    *kernel,
                    kernel_phys,
                )
            },
        },
        placeable(*kernel, kernel_phys) && gibibytes >= 1 && pool.pages_spec() >= pool_size(
            (kernel.end - kernel.base) / 0x1000,
            gibibytes as int,
        ) && kernel.end % 0x1000 == 0 ==> result is Ok,
{
    let ghost pages = pool.pages_spec();
    let mut tables = match Tables::new(pool) {
        Err(_) => {
            return Err("page_table_pool_exhausted");
        },
        Ok(tables) => tables,
    };
    let count: u64 = gibibytes * 512;
    assert(LARGE_PAGE_SIZE == 0x20_0000);
    assert(count * LARGE_PAGE_SIZE == gibibytes * 0x4000_0000) by (nonlinear_arith)
        requires
            count == gibibytes * 512,
            LARGE_PAGE_SIZE == 0x20_0000,
    ;
    let ghost sound = placeable(*kernel, kernel_phys) && gibibytes >= 1 && pages >= pool_size(
        (kernel.end - kernel.base) / 0x1000,
        gibibytes as int,
    ) && kernel.end % 0x1000 == 0;
    let ghost empty = tables;
    let ghost size = gibibytes * 0x4000_0000;
    let ghost top = HHDM_BASE + size;
    let ghost base = KERNEL_IMAGE_BASE as int;
    proof {
        if sound {
            blocks_are_counted(gibibytes, kernel.end, empty);
            assert(empty.free() == pages - 1);
            assert(empty.free() >= need(empty, 1, 0, size) + need(
                empty,
                1,
                HHDM_BASE as int,
                top,
            ) + need(empty, 0, base, kernel.end as int));
            needs_are_counts(empty, size, top, kernel.end as int);
        }
    }
    match tables.map_large_range(0, 0, count, WRITABLE) {
        Err(error) => {
            proof {
                if sound {
                    let done = choose|done: int| #[trigger]
                        pages_mapped(empty, tables, 0, 0, done, WRITABLE, 1) && 0 <= done < count
                            && page_refused(tables, 0, 0, done, 1, error);
                    only_tables_can_lack_there(empty, tables, 0, done, WRITABLE, error);
                    assert(spare(empty, 1, 0, size) < 0);
                }
                assert(range_refused(empty, tables, 0, 0, count as int, WRITABLE, 1));
            }
            return Err("identity_map_failed");
        },
        Ok(()) => {},
    }
    let ghost identity = tables;
    assert(mapped(identity, 0, 0, count as int, WRITABLE, 1));
    proof {
        if sound {
            assert(spare(identity, 1, 0, size) >= spare(empty, 1, 0, size));
            growing_needs_less(empty, identity, 1, HHDM_BASE as int, top);
            growing_needs_less(empty, identity, 0, base, kernel.end as int);
            needs_are_counts(identity, size, top, kernel.end as int);
        }
    }
    match tables.map_large_range(HHDM_BASE, 0, count, WRITABLE | NO_EXECUTE) {
        Err(error) => {
            proof {
                if sound {
                    let flags = WRITABLE | NO_EXECUTE;
                    let done = choose|done: int| #[trigger]
                        pages_mapped(identity, tables, HHDM_BASE, 0, done, flags, 1) && 0 <= done
                            < count && page_refused(tables, HHDM_BASE, 0, done, 1, error);
                    let v = page_at(HHDM_BASE, done, 1);
                    large_page_index(HHDM_BASE, done);
                    ranges_are_apart(v, 0, count as int);
                    assert(identity.translation(v) == empty.translation(v));
                    assert(!(empty.way(0, v) is Reached));
                    only_tables_can_lack_there(identity, tables, HHDM_BASE, done, flags, error);
                    assert(spare(identity, 1, HHDM_BASE as int, top) < 0);
                }
                assert forall|v: u64| !in_range(v, 0, count as int, 1) implies (
                #[trigger] identity.translation(v)) is None by {
                    assert(identity.translation(v) == empty.translation(v));
                }
                assert(range_refused(
                    identity,
                    tables,
                    HHDM_BASE,
                    0,
                    count as int,
                    WRITABLE | NO_EXECUTE,
                    1,
                ));
            }
            return Err("direct_map_failed");
        },
        Ok(()) => {},
    }
    let ghost direct = tables;
    assert(mapped(direct, HHDM_BASE, 0, count as int, WRITABLE | NO_EXECUTE, 1));
    proof {
        if sound {
            assert(spare(direct, 1, HHDM_BASE as int, top) >= spare(
                identity,
                1,
                HHDM_BASE as int,
                top,
            ));
            growing_needs_less(identity, direct, 1, 0, size);
            growing_needs_less(identity, direct, 0, base, kernel.end as int);
            needs_are_counts(direct, size, top, kernel.end as int);
            assert forall|v: u64|
                kernel.base <= v < kernel.end implies (#[trigger] direct.translation(
                v,
            )) is None by {
                ranges_are_apart(v, 0, count as int);
                ranges_are_apart(v, HHDM_BASE, count as int);
                assert(identity.translation(v) == empty.translation(v));
                assert(direct.translation(v) == identity.translation(v));
            }
            assert(rest_is_clear(direct, *kernel, 0));
            assert(spare(direct, 0, base, kernel.end as int) >= 0);
        }
    }
    if !map_segments(&mut tables, kernel, kernel_phys) {
        proof {
            let (before, k) = choose|before: Tables, k: int|
                before.keeps(direct) && before.root_spec() == direct.root_spec()
                    && #[trigger] segment_refused(before, tables, *kernel, kernel_phys, k);
            mapped_stays(identity, direct, 0, 0, count as int, WRITABLE, 1);
            mapped_stays(direct, before, 0, 0, count as int, WRITABLE, 1);
            mapped_stays(
                direct,
                before,
                HHDM_BASE,
                0,
                count as int,
                WRITABLE | NO_EXECUTE,
                1,
            );
        }
        return Err("kernel_map_failed");
    }
    proof {
        mapped_stays(identity, direct, 0, 0, count as int, WRITABLE, 1);
        mapped_stays(direct, tables, 0, 0, count as int, WRITABLE, 1);
        mapped_stays(
            direct,
            tables,
            HHDM_BASE,
            0,
            count as int,
            WRITABLE | NO_EXECUTE,
            1,
        );
    }
    proof {
        tables.well_formed_leaves_decide();
        reveal(kept_outside);
        assert forall|v: u64|
            !in_range(v, 0, count as int, 1) && !in_range(v, HHDM_BASE, count as int, 1)
                && !in_segments(v, *kernel, kernel.segment_count as int) implies (
        #[trigger] tables.translation(v)) is None by {
            assert(tables.translation(v) == direct.translation(v));
            assert(direct.translation(v) == identity.translation(v));
            assert(identity.translation(v) == empty.translation(v));
        }
    }
    Ok(tables)
}

/// No range needs fewer tables than none.
proof fn needs_are_counts(t: Tables, size: int, top: int, end: int)
    requires
        size > 0,
        top > HHDM_BASE,
        end > KERNEL_IMAGE_BASE,
    ensures
        need(t, 1, 0, size) >= 0,
        need(t, 1, HHDM_BASE as int, top) >= 0,
        need(t, 0, KERNEL_IMAGE_BASE as int, end) >= 0,
{
    growing_counts(t, 1, 0, size);
    growing_counts(t, 1, HHDM_BASE as int, top);
    growing_counts(t, 0, KERNEL_IMAGE_BASE as int, end);
}

proof fn growing_counts(t: Tables, level: nat, lo: int, hi: int)
    ensures
        need(t, level, lo, hi) >= 0,
{
    growing_lacks_less(t, t, 0, lo / span(1), (hi - 1) / span(1) - lo / span(1) + 1);
    growing_lacks_less(t, t, 1, lo / span(2), (hi - 1) / span(2) - lo / span(2) + 1);
    growing_lacks_less(t, t, 2, lo / span(3), (hi - 1) / span(3) - lo / span(3) + 1);
}

proof fn highest_is_whole(segments: Seq<Segment>)
    requires
        forall|k: int| 0 <= k < segments.len() ==> (#[trigger] segments[k]).vaddr % 0x1000 == 0,
    ensures
        elf::highest(segments) % 0x1000 == 0,
    decreases segments.len(),
{
    if segments.len() > 0 {
        let rest = segments.drop_last();
        assert forall|k: int| 0 <= k < rest.len() implies (#[trigger] rest[k]).vaddr % 0x1000
            == 0 by {
            assert(segments[k].vaddr % 0x1000 == 0);
        }
        highest_is_whole(rest);
        assert(segments[segments.len() - 1].vaddr % 0x1000 == 0);
    }
}

/// A kernel image that was accepted can be placed, so with a pool of the
/// reserved size its tables can be built.
pub proof fn accepted_kernel_is_placeable(s: Seq<u8>, kernel: Image, phys: u64)
    requires
        elf::judge(s) is Ok,
        s.len() <= usize::MAX,
        kernel.segment_count <= MAX_SEGMENTS,
        kernel.segment_count == elf::judge(s)->Ok_0.len(),
        kernel.loaded() == elf::judge(s)->Ok_0,
        kernel.base == elf::lowest(elf::judge(s)->Ok_0),
        kernel.end == elf::highest(elf::judge(s)->Ok_0),
        phys % 0x1000 == 0,
    ensures
        placeable(kernel, phys),
        kernel.end % 0x1000 == 0,
{
    let segments = elf::judge(s)->Ok_0;
    elf::accepted_kernel_is_sound(s);
    assert forall|k: int| 0 <= k < kernel.segment_count implies #[trigger] kernel.segments@[k]
        == segments[k] by {
        assert(kernel.loaded()[k] == kernel.segments@[k]);
    }
    assert forall|k: int| 0 <= k < segments.len() implies (#[trigger] segments[k]).vaddr % 0x1000
        == 0 by {}
    highest_is_whole(segments);
    assert(kernel.segments@[0] == segments[0]);
    assert(segments[0].page_end() <= elf::highest(segments));
    assert forall|j: int, k: int| 0 <= j < k < kernel.segment_count implies !(
    #[trigger] kernel.segments@[j]).meets(#[trigger] kernel.segments@[k]) by {
        assert(!segments[j].meets(segments[k]));
    }
}

/// The module directory of the hand-off: entry `i` of the package, placed at
/// `bases[i]`.
pub open spec fn module_record(directory: Directory, bases: Seq<u64>, i: int) -> BootModule {
    BootModule {
        name: directory.entries@[i].name,
        phys_base: bases[i],
        length: directory.entries@[i].length as u64,
        kind: directory.entries@[i].kind,
        flags: directory.entries@[i].flags,
    }
}

/// Describes the modules to the kernel.
pub fn module_records(directory: &Directory, bases: &Vec<u64>) -> (modules: Vec<BootModule>)
    requires
        directory.count <= MAX_MODULES,
        bases@.len() == directory.count,
    ensures
        modules@ == Seq::new(
            directory.count as nat,
            |i: int| module_record(*directory, bases@, i),
        ),
{
    let mut modules: Vec<BootModule> = Vec::new();
    for i in 0..directory.count
        invariant
            directory.count <= MAX_MODULES,
            bases@.len() == directory.count,
            modules@.len() == i,
            forall|k: int|
                0 <= k < i ==> #[trigger] modules@[k] == module_record(*directory, bases@, k),
    {
        let entry = directory.entries[i];
        modules.push(
            BootModule {
                name: entry.name,
                phys_base: bases[i],
                length: entry.length as u64,
                kind: entry.kind,
                flags: entry.flags,
            },
        );
    }
    assert(modules@ =~= Seq::new(
        directory.count as nat,
        |i: int| module_record(*directory, bases@, i),
    ));
    modules
}

/// The region a descriptor becomes.
pub open spec fn region_of(descriptor: Descriptor) -> MemoryRegion {
    MemoryRegion {
        base: descriptor.phys_start,
        pages: descriptor.page_count,
        kind: category(descriptor.kind),
        flags: 0,
    }
}

/// Classifies the final memory map, one region per descriptor; `None` when the
/// hand-off has no room for it.
pub fn classify_map(map: &Vec<Descriptor>) -> (regions: Option<Vec<MemoryRegion>>)
    ensures
        match regions {
            Some(found) => map@.len() <= MAX_MEMORY_REGIONS && found@ == map@.map_values(
                |d: Descriptor| region_of(d),
            ),
            None => map@.len() > MAX_MEMORY_REGIONS,
        },
{
    if map.len() > MAX_MEMORY_REGIONS {
        return None;
    }
    let mut found: Vec<MemoryRegion> = Vec::new();
    for i in 0..map.len()
        invariant
            found@.len() == i,
            forall|k: int| 0 <= k < i ==> #[trigger] found@[k] == region_of(map@[k]),
    {
        let descriptor = map[i];
        found.push(
            MemoryRegion {
                base: descriptor.phys_start,
                pages: descriptor.page_count,
                kind: classify(descriptor.kind),
                flags: 0,
            },
        );
    }
    assert(found@ =~= map@.map_values(|d: Descriptor| region_of(d)));
    Some(found)
}

/// Everything reserved before boot services are left.
#[derive(Clone, Copy, Debug, PartialEq, Eq, Structural)]
pub struct Prepared {
    /// Topmost bootstrap table.
    pub tables_root: u64,
    /// Block of the bootstrap tables.
    pub tables_phys: u64,
    /// Pages of that block.
    pub tables_pages: u64,
    /// Entry point of the kernel.
    pub entry: u64,
    /// Where the kernel image was placed.
    pub kernel_phys: u64,
    /// Pages of the kernel image.
    pub kernel_pages: u64,
    /// The kernel's first stack.
    pub stack_phys: u64,
    /// Pages of that stack.
    pub stack_pages: u64,
    /// Block of the hand-off.
    pub handoff_phys: u64,
    /// Pages of that block.
    pub handoff_pages: u64,
    /// The memory map inside it.
    pub regions_phys: u64,
    /// The module directory inside it.
    pub modules_phys: u64,
    /// Modules.
    pub module_count: u32,
    /// Pages of the direct map.
    pub hhdm_pages: u64,
    /// ACPI root pointer, or zero.
    pub acpi_rsdp: u64,
}

/// Assembles the root structure of the hand-off. Two records are still to be
/// written when it is: the kernel continues their count.
pub fn boot_info(prepared: &Prepared, regions: u32, emitted: u64, serial_port: u16) -> (info: BootInfo)
    requires
        emitted <= u64::MAX - 2,
    ensures
        info.magic == BOOTINFO_MAGIC,
        info.version_major == BOOTINFO_VERSION_MAJOR,
        info.version_minor == BOOTINFO_VERSION_MINOR,
        info.header_len == BOOT_INFO_LEN,
        info.hhdm_base == HHDM_BASE,
        info.hhdm_pages == prepared.hhdm_pages,
        info.memory_map_phys == prepared.regions_phys,
        info.memory_map_entries == regions,
        info.memory_map_entry_size == MEMORY_REGION_LEN,
        info.modules_phys == prepared.modules_phys,
        info.modules_count == prepared.module_count,
        info.modules_entry_size == BOOT_MODULE_LEN,
        info.acpi_rsdp_phys == prepared.acpi_rsdp,
        info.kernel_phys_base == prepared.kernel_phys,
        info.kernel_virt_base == KERNEL_IMAGE_BASE,
        info.kernel_image_pages == prepared.kernel_pages,
        info.bootstrap_tables_phys == prepared.tables_phys,
        info.bootstrap_tables_pages == prepared.tables_pages,
        info.boot_stack_phys == prepared.stack_phys,
        info.boot_stack_pages == prepared.stack_pages,
        info.handoff_phys == prepared.handoff_phys,
        info.handoff_pages == prepared.handoff_pages,
        info.loader_event_count == emitted + 2,
        info.boot_epoch == 0,
        info.serial_port == serial_port,
        info.reserved1@ == seq![0u16, 0, 0],
{
    let reserved1: [u16; 3] = [0; 3];
    assert(reserved1@ =~= seq![0u16, 0, 0]);
    BootInfo {
        magic: BOOTINFO_MAGIC,
        version_major: BOOTINFO_VERSION_MAJOR,
        version_minor: BOOTINFO_VERSION_MINOR,
        header_len: BOOT_INFO_LEN as u32,
        hhdm_base: HHDM_BASE,
        hhdm_pages: prepared.hhdm_pages,
        memory_map_phys: prepared.regions_phys,
        memory_map_entries: regions,
        memory_map_entry_size: MEMORY_REGION_LEN as u32,
        modules_phys: prepared.modules_phys,
        modules_count: prepared.module_count,
        modules_entry_size: BOOT_MODULE_LEN as u32,
        acpi_rsdp_phys: prepared.acpi_rsdp,
        kernel_phys_base: prepared.kernel_phys,
        kernel_virt_base: KERNEL_IMAGE_BASE,
        kernel_image_pages: prepared.kernel_pages,
        bootstrap_tables_phys: prepared.tables_phys,
        bootstrap_tables_pages: prepared.tables_pages,
        boot_stack_phys: prepared.stack_phys,
        boot_stack_pages: prepared.stack_pages,
        handoff_phys: prepared.handoff_phys,
        handoff_pages: prepared.handoff_pages,
        loader_event_count: emitted + 2,
        boot_epoch: 0,
        serial_port,
        reserved1,
    }
}

/// What the loader hands over, the kernel accepts.
pub proof fn kernel_accepts_the_handoff(info: BootInfo)
    requires
        info.magic == BOOTINFO_MAGIC,
        info.version_major == BOOTINFO_VERSION_MAJOR,
        info.version_minor == BOOTINFO_VERSION_MINOR,
        info.header_len == BOOT_INFO_LEN,
        info.hhdm_base == HHDM_BASE,
        info.hhdm_pages > 0,
        0 < info.memory_map_entries <= MAX_MEMORY_REGIONS,
        info.memory_map_entry_size == MEMORY_REGION_LEN,
        info.modules_count <= MAX_MODULES,
        info.modules_entry_size == BOOT_MODULE_LEN,
        info.kernel_virt_base == KERNEL_IMAGE_BASE,
        info.boot_stack_pages == BOOT_STACK_PAGES,
    ensures
        crate::boot::handoff_fault(info) is None,
{
}

} // verus!
