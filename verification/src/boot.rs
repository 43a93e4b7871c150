//! Bootstrap: what the hand-off must hold, the kernel's own address space, and
//! which domains a package starts with.
//!
//! The order matters. The hand-off is validated, a machine that cannot support
//! the profile is refused, memory is taken over, the kernel's own tables are
//! installed, and only then is the first domain built.

use vstd::prelude::*;

use crate::api::memops::all_flushed;
use crate::arch::x86_64::paging::{
    has_kernel_slots, in_large_range, interior_kept, interior_kept_on, is_kernel_slot, is_root,
    kernel_tables_taken, large_bits, large_page_at, leaf_bits, no_lowest, rooted, shares_slot,
    sharing_stays, walk, AddressSpace, MapError,
};
use crate::domain::{create_in, creation, CreateError, Created};
use crate::k2boot::{module_name, name_length};
use crate::kstack::{stack_page, stack_pages_are_dynamic};
use crate::layout::{KSTACK_PAGES, LAPIC_VADDR, USER_STACK_PAGES, USER_STACK_TOP};
use crate::limits::{MAX_CPUS, MAX_DOMAINS, MAX_SCOPES, MAX_THREADS};
use crate::machine::stacks_are_clear;
use crate::mm::{
    count_use, free_only_shrinks, quarantine_drained, run_reclaimed, Frame, FrameAllocator,
    FrameUse, Owner, Rights, MAX_FRAMES, PHYSICAL_FRAMES,
};
use crate::page_table::{
    page_walks_alike, prefix_continues, same_page, upper_page_number, upper_pages_are_apart,
};
use crate::protocol::{
    module_kind, region_kind, BootInfo, BootModule, MemoryRegion, BOOTINFO_MAGIC,
    BOOTINFO_VERSION_MAJOR, BOOTINFO_VERSION_MINOR, BOOT_INFO_LEN, BOOT_MODULE_LEN, HHDM_BASE,
    KERNEL_IMAGE_BASE, MAX_MEMORY_REGIONS, MAX_MODULES, MEMORY_REGION_LEN, PAGE_SIZE,
};
use crate::state::{Machine, MachineModel};

verus! {

/// Why a hand-off is refused, or nothing.
pub open spec fn handoff_fault(info: BootInfo) -> Option<Seq<char>> {
    if info.magic != BOOTINFO_MAGIC {
        Some("bad_magic"@)
    } else if info.version_major != BOOTINFO_VERSION_MAJOR || info.version_minor
        > BOOTINFO_VERSION_MINOR {
        Some("incompatible_version"@)
    } else if info.header_len < BOOT_INFO_LEN {
        Some("short_header"@)
    } else if info.hhdm_base != HHDM_BASE {
        Some("direct_map_base_mismatch"@)
    } else if info.hhdm_pages == 0 {
        Some("empty_direct_map"@)
    } else if info.memory_map_entry_size != MEMORY_REGION_LEN {
        Some("memory_map_entry_size"@)
    } else if info.memory_map_entries == 0 || info.memory_map_entries > MAX_MEMORY_REGIONS {
        Some("memory_map_entry_count"@)
    } else if info.modules_entry_size != BOOT_MODULE_LEN {
        Some("module_entry_size"@)
    } else if info.modules_count > MAX_MODULES {
        Some("module_count"@)
    } else if info.kernel_virt_base != KERNEL_IMAGE_BASE {
        Some("kernel_base_mismatch"@)
    } else if info.boot_stack_pages == 0 {
        Some("no_boot_stack"@)
    } else {
        None
    }
}

/// Decides whether what the loader handed over can be used.
pub fn validate(info: &BootInfo) -> (result: Result<(), &'static str>)
    ensures
        match handoff_fault(*info) {
            Some(text) => result matches Err(reason) && reason@ == text,
            None => result is Ok,
        },
{
    if info.magic != BOOTINFO_MAGIC {
        return Err("bad_magic");
    }
    if info.version_major != BOOTINFO_VERSION_MAJOR || info.version_minor
        > BOOTINFO_VERSION_MINOR {
        return Err("incompatible_version");
    }
    if (info.header_len as u64) < BOOT_INFO_LEN as u64 {
        return Err("short_header");
    }
    if info.hhdm_base != HHDM_BASE {
        return Err("direct_map_base_mismatch");
    }
    if info.hhdm_pages == 0 {
        return Err("empty_direct_map");
    }
    if info.memory_map_entry_size as u64 != MEMORY_REGION_LEN as u64 {
        return Err("memory_map_entry_size");
    }
    if info.memory_map_entries == 0 || info.memory_map_entries as u64 > MAX_MEMORY_REGIONS as u64 {
        return Err("memory_map_entry_count");
    }
    if info.modules_entry_size as u64 != BOOT_MODULE_LEN as u64 {
        return Err("module_entry_size");
    }
    if info.modules_count as u64 > MAX_MODULES as u64 {
        return Err("module_count");
    }
    if info.kernel_virt_base != KERNEL_IMAGE_BASE {
        return Err("kernel_base_mismatch");
    }
    if info.boot_stack_pages == 0 {
        return Err("no_boot_stack");
    }
    Ok(())
}

/// The name of a kind of region.
pub open spec fn kind_text(kind: u32) -> Seq<char> {
    match kind {
        region_kind::USABLE => "usable"@,
        region_kind::BOOT_RECLAIMABLE => "boot_reclaimable"@,
        region_kind::KERNEL_IMAGE => "kernel_image"@,
        region_kind::MODULES => "modules"@,
        region_kind::FIRMWARE_RUNTIME => "firmware_runtime"@,
        region_kind::ACPI_RECLAIMABLE => "acpi_reclaimable"@,
        region_kind::ACPI_NVS => "acpi_nvs"@,
        region_kind::RESERVED => "reserved"@,
        region_kind::UNUSABLE => "unusable"@,
        region_kind::MMIO => "mmio"@,
        _ => "unknown"@,
    }
}

/// Short name of a kind of region, for diagnostic records.
pub fn kind_name(kind: u32) -> (text: &'static str)
    ensures
        text@ == kind_text(kind),
{
    match kind {
        region_kind::USABLE => "usable",
        region_kind::BOOT_RECLAIMABLE => "boot_reclaimable",
        region_kind::KERNEL_IMAGE => "kernel_image",
        region_kind::MODULES => "modules",
        region_kind::FIRMWARE_RUNTIME => "firmware_runtime",
        region_kind::ACPI_RECLAIMABLE => "acpi_reclaimable",
        region_kind::ACPI_NVS => "acpi_nvs",
        region_kind::RESERVED => "reserved",
        region_kind::UNUSABLE => "unusable",
        region_kind::MMIO => "mmio",
        _ => "unknown",
    }
}

/// Pages of the first `n` regions whose kind `counts` names.
pub open spec fn pages_of(regions: Seq<MemoryRegion>, counts: spec_fn(u32) -> bool, n: int) -> int
    decreases n,
{
    if n <= 0 {
        0
    } else if counts(regions[n - 1].kind) {
        pages_of(regions, counts, n - 1) + regions[n - 1].pages
    } else {
        pages_of(regions, counts, n - 1)
    }
}

/// Every region lies in the physical address space.
pub open spec fn regions_ok(regions: Seq<MemoryRegion>) -> bool {
    &&& regions.len() <= MAX_MEMORY_REGIONS
    &&& forall|i: int|
        0 <= i < regions.len() ==> (#[trigger] regions[i]).base + regions[i].pages * 0x1000
            <= 0x10_0000_0000_0000
}

/// What the memory map adds up to.
#[derive(Clone, Copy, Debug, PartialEq, Eq, Structural)]
pub struct MapTotals {
    /// Pages free to use.
    pub usable: u64,
    /// Pages that come back once the boot is over.
    pub reclaimable: u64,
    /// Pages the firmware keeps.
    pub firmware: u64,
}

/// Adds up the memory map.
pub fn memory_totals(regions: &Vec<MemoryRegion>) -> (totals: MapTotals)
    requires
        regions_ok(regions@),
    ensures
        ({
            let n = regions@.len() as int;
            &&& totals.usable == pages_of(regions@, |k: u32| k == region_kind::USABLE, n)
            &&& totals.reclaimable == pages_of(
                regions@,
                |k: u32| k == region_kind::BOOT_RECLAIMABLE || k == region_kind::MODULES,
                n,
            )
            &&& totals.firmware == pages_of(
                regions@,
                |k: u32|
                    k == region_kind::FIRMWARE_RUNTIME || k == region_kind::ACPI_NVS || k
                        == region_kind::RESERVED,
                n,
            )
        }),
{
    let mut usable: u64 = 0;
    let mut reclaimable: u64 = 0;
    let mut firmware: u64 = 0;
    for i in 0..regions.len()
        invariant
            regions_ok(regions@),
            usable <= i * 0x100_0000_0000,
            reclaimable <= i * 0x100_0000_0000,
            firmware <= i * 0x100_0000_0000,
            usable == pages_of(regions@, |k: u32| k == region_kind::USABLE, i as int),
            reclaimable == pages_of(
                regions@,
                |k: u32| k == region_kind::BOOT_RECLAIMABLE || k == region_kind::MODULES,
                i as int,
            ),
            firmware == pages_of(
                regions@,
                |k: u32|
                    k == region_kind::FIRMWARE_RUNTIME || k == region_kind::ACPI_NVS || k
                        == region_kind::RESERVED,
                i as int,
            ),
    {
        let region = regions[i];
        assert(region.pages <= 0x100_0000_0000);
        if region.kind == region_kind::USABLE {
            usable += region.pages;
        } else if region.kind == region_kind::BOOT_RECLAIMABLE || region.kind
            == region_kind::MODULES {
            reclaimable += region.pages;
        } else if region.kind == region_kind::FIRMWARE_RUNTIME || region.kind
            == region_kind::ACPI_NVS || region.kind == region_kind::RESERVED {
            firmware += region.pages;
        }
    }
    MapTotals { usable, reclaimable, firmware }
}

/// A region covers a frame.
pub open spec fn covers(region: MemoryRegion, frame: int) -> bool {
    region.base as int / 0x1000 <= frame < region.base as int / 0x1000 + region.pages
}

/// A usable region covers a frame.
pub open spec fn is_usable(regions: Seq<MemoryRegion>, frame: int) -> bool {
    exists|i: int|
        0 <= i < regions.len() && (#[trigger] regions[i]).kind == region_kind::USABLE && covers(
            regions[i],
            frame,
        )
}

fn usable(regions: &Vec<MemoryRegion>, frame: u64) -> (yes: bool)
    requires
        regions_ok(regions@),
    ensures
        yes == is_usable(regions@, frame as int),
{
    for i in 0..regions.len()
        invariant
            regions_ok(regions@),
            forall|k: int|
                0 <= k < i ==> !((#[trigger] regions@[k]).kind == region_kind::USABLE && covers(
                    regions@[k],
                    frame as int,
                )),
    {
        let region = regions[i];
        assert(regions@[i as int].base + regions@[i as int].pages * 0x1000
            <= 0x10_0000_0000_0000);
        let first: u64 = region.base / 0x1000;
        if region.kind == region_kind::USABLE && first <= frame && frame - first < region.pages {
            return true;
        }
    }
    false
}

/// What each of the first `frames` frames is used for: those of usable regions
/// are available, the others are never handed out.
pub fn frame_uses(regions: &Vec<MemoryRegion>, frames: usize) -> (uses: Vec<FrameUse>)
    requires
        regions_ok(regions@),
        frames <= MAX_FRAMES,
    ensures
        uses@ == Seq::new(
            frames as nat,
            |i: int|
                if is_usable(regions@, i) {
                    FrameUse::Free
                } else {
                    FrameUse::Reserved
                },
        ),
{
    let mut uses: Vec<FrameUse> = Vec::new();
    for i in 0..frames
        invariant
            regions_ok(regions@),
            uses@.len() == i,
            forall|k: int|
                0 <= k < i ==> #[trigger] uses@[k] == if is_usable(regions@, k) {
                    FrameUse::Free
                } else {
                    FrameUse::Reserved
                },
    {
        if usable(regions, i as u64) {
            uses.push(FrameUse::Free);
        } else {
            uses.push(FrameUse::Reserved);
        }
    }
    assert(uses@ =~= Seq::new(
        frames as nat,
        |i: int|
            if is_usable(regions@, i) {
                FrameUse::Free
            } else {
                FrameUse::Reserved
            },
    ));
    uses
}

/// A section of the kernel image.
#[derive(Clone, Copy, Debug)]
pub struct Section {
    /// Where it starts.
    pub start: u64,
    /// Where it ends.
    pub end: u64,
    /// What it permits.
    pub rights: Rights,
}

/// The address space the kernel is to run in.
#[derive(Clone, Copy, Debug)]
pub struct KernelPlan {
    /// Pages the direct map covers.
    pub hhdm_pages: u64,
    /// Local APIC registers, where the memory window exists.
    pub lapic_phys: Option<u64>,
    /// Difference between physical and virtual addresses of the image.
    pub delta: u64,
    /// Code.
    pub text: Section,
    /// Constants.
    pub rodata: Section,
    /// Data.
    pub data: Section,
}

/// Pages a section touches, from its first byte on.
pub open spec fn section_pages(section: Section) -> int {
    if section.end <= section.start {
        0
    } else {
        (section.end - section.start + 0xFFF) / 0x1000
    }
}

/// Where the frames of a section start.
pub open spec fn section_phys(section: Section, delta: u64) -> u64 {
    ((section.start + delta) % 0x1_0000_0000_0000_0000) as u64
}

/// A section lies in the address space, and its frames in the physical one.
pub open spec fn section_ok(section: Section, delta: u64) -> bool {
    &&& section.start + section_pages(section) * 0x1000 <= u64::MAX
    &&& section_phys(section, delta) + section_pages(section) * 0x1000 <= 0x10_0000_0000_0000
}

/// Page `i` of a range that starts at `start`.
pub open spec fn small_page_at(start: u64, i: int) -> u64 {
    (start + i * 0x1000) as u64
}

/// The first `done` pages of a section translate to their frames, with its
/// rights.
pub open spec fn section_mapped(
    space: AddressSpace,
    frames: FrameAllocator,
    section: Section,
    delta: u64,
    done: int,
) -> bool {
    forall|i: int, w: u64|
        0 <= i < done && #[trigger] same_page(w, small_page_at(section.start, i), 0)
            ==> space.translation(frames, w) == Some(
            (
                0nat,
                (Frame {
                    number: (section_phys(section, delta) / 0x1000 + i) as u64,
                }.address() as u64) | leaf_bits(section.rights),
            ),
        )
}

/// Whatever translated in a space before translates to the same after.
pub open spec fn keeps(space: AddressSpace, before: FrameAllocator, after: FrameAllocator) -> bool {
    forall|w: u64|
        space.translation(before, w) is Some ==> #[trigger] space.translation(after, w)
            == space.translation(before, w)
}

/// The address is that of a page of the upper half, and the rights are ones
/// that a page may have.
pub open spec fn page_is_sound(vaddr: u64, rights: Rights) -> bool {
    &&& vaddr % 0x1000 == 0
    &&& vaddr >= HHDM_BASE
    &&& rights.fault() is None
}

/// Tables of the kernel came, and no table or interior entry went.
pub open spec fn grows(before: FrameAllocator, after: FrameAllocator) -> bool {
    &&& interior_kept(before, after)
    &&& kernel_tables_taken(before, after)
    &&& rooted(before) ==> rooted(after)
    &&& forall|r: int| is_root(before, r) ==> #[trigger] is_root(after, r)
}

proof fn growing_goes_on(a: FrameAllocator, b: FrameAllocator, c: FrameAllocator)
    requires
        grows(a, b),
        grows(b, c),
    ensures
        grows(a, c),
{
    interior_kept_on(a, b, c);
    assert forall|i: int| 0 <= i < a.uses_spec().len() implies {
        ||| #[trigger] c.uses_spec()[i] == a.uses_spec()[i]
        ||| a.uses_spec()[i] == FrameUse::Free && c.uses_spec()[i] == FrameUse::Table(Owner::Kernel)
    } by {
        let u = b.uses_spec()[i];
    }
    assert forall|r: int| is_root(a, r) implies #[trigger] is_root(c, r) by {
        assert(is_root(b, r));
    }
}

/// Mapping one page takes no other translation away.
fn map_one(
    space: &AddressSpace,
    frames: &mut FrameAllocator,
    vaddr: u64,
    frame: Frame,
    rights: Rights,
) -> (result: Result<(), MapError>)
    requires
        old(frames).wf(),
        space.lives_in(*old(frames)),
        frame.number < PHYSICAL_FRAMES,
    ensures
        final(frames).wf(),
        space.lives_in(*final(frames)),
        keeps(*space, *old(frames), *final(frames)),
        grows(*old(frames), *final(frames)),
        result is Ok ==> forall|w: u64|
            #[trigger] same_page(w, vaddr, 0) ==> space.translation(*final(frames), w) == Some(
                (0nat, (frame.address() as u64) | leaf_bits(rights)),
            ),
        result matches Err(e) ==> mapping_refused(*space, *final(frames), vaddr, rights, e),
        forall|w: u64|
            !same_page(w, vaddr, 0) ==> #[trigger] space.translation(*final(frames), w)
                == space.translation(*old(frames), w),
        result is Ok ==> final(frames).free_frames() + 3 >= old(frames).free_frames(),
        page_is_sound(vaddr, rights) && space.translation(*old(frames), vaddr) is None && old(
            frames,
        ).free_frames() >= 3 ==> result is Ok,
{
    let result = space.map(vaddr, frame, rights, frames, Owner::Kernel);
    proof {
        assert forall|w: u64| !same_page(w, vaddr, 0) implies #[trigger] space.translation(
            *frames,
            w,
        ) == space.translation(*old(frames), w) by {
            assert(walk(*frames, space.root.number as int, w) == walk(
                *old(frames),
                space.root.number as int,
                w,
            ));
        }
        assert forall|w: u64| space.translation(*old(frames), w) is Some implies (
        #[trigger] space.translation(*frames, w)) == space.translation(*old(frames), w) by {
            if result is Ok && same_page(w, vaddr, 0) {
                page_walks_alike(
                    0,
                    old(frames).contents(),
                    space.root.number as int,
                    3,
                    vaddr,
                    w,
                );
            }
            assert(walk(*frames, space.root.number as int, w) == walk(
                *old(frames),
                space.root.number as int,
                w,
            ));
        }
        if result is Err {
            assert forall|i: int|
                0 <= i < frames.uses_spec().len() && #[trigger] frames.uses_spec()[i]
                    == FrameUse::Free implies old(frames).uses_spec()[i] == FrameUse::Free by {}
            free_only_shrinks(old(frames).uses_spec(), frames.uses_spec());
            assert(walk(*frames, space.root.number as int, vaddr) == walk(
                *old(frames),
                space.root.number as int,
                vaddr,
            ));
        }
    }
    result
}

/// Why a page of the kernel's own cannot be mapped.
pub open spec fn mapping_refused(
    space: AddressSpace,
    frames: FrameAllocator,
    vaddr: u64,
    rights: Rights,
    e: MapError,
) -> bool {
    ||| rights.fault() matches Some(f) && e == MapError::Rights(f)
    ||| e == MapError::BadAddress && (vaddr % 0x1000 != 0
        || !crate::arch::x86_64::paging::is_canonical(vaddr))
    ||| e == MapError::AlreadyMapped && space.translation(frames, vaddr) is Some
    ||| e == MapError::LargePageInTheWay && space.translation(frames, vaddr) is Some
    ||| e == MapError::OutOfMemory && frames.free_frames() < 3
}

/// Some page of a section cannot be mapped.
pub open spec fn section_refused(
    space: AddressSpace,
    frames: FrameAllocator,
    section: Section,
    e: MapError,
) -> bool {
    exists|i: int|
        0 <= i < section_pages(section) && #[trigger] mapping_refused(
            space,
            frames,
            small_page_at(section.start, i),
            section.rights,
            e,
        )
}

/// Maps a section of the kernel image page by page, up to the first page that
/// cannot be mapped.
pub fn map_kernel_range(
    space: &AddressSpace,
    frames: &mut FrameAllocator,
    section: &Section,
    delta: u64,
) -> (result: Result<(), MapError>)
    requires
        old(frames).wf(),
        space.lives_in(*old(frames)),
        section_ok(*section, delta),
    ensures
        final(frames).wf(),
        space.lives_in(*final(frames)),
        keeps(*space, *old(frames), *final(frames)),
        grows(*old(frames), *final(frames)),
        result is Ok ==> section_mapped(
            *space,
            *final(frames),
            *section,
            delta,
            section_pages(*section),
        ),
        result matches Err(e) ==> section_refused(*space, *final(frames), *section, e),
        forall|w: u64|
            !in_section(w, *section) ==> #[trigger] space.translation(*final(frames), w)
                == space.translation(*old(frames), w),
        result is Ok ==> final(frames).free_frames() + 3 * section_pages(*section) >= old(
            frames,
        ).free_frames(),
        section_is_sound(*section) && old(frames).free_frames() >= 3 * section_pages(*section) && (
        forall|i: int|
            0 <= i < section_pages(*section) ==> space.translation(
                *old(frames),
                #[trigger] small_page_at(section.start, i),
            ) is None) ==> result is Ok,
{
    if section.end <= section.start {
        return Ok(());
    }
    let pages: u64 = (section.end - section.start - 1) / 0x1000 + 1;
    assert(pages == section_pages(*section));
    let phys: u64 = section.start.wrapping_add(delta);
    assert(phys == section_phys(*section, delta));
    for i in 0..pages
        invariant
            frames.wf(),
            space.lives_in(*frames),
            section_ok(*section, delta),
            pages == section_pages(*section),
            phys == section_phys(*section, delta),
            keeps(*space, *old(frames), *frames),
            grows(*old(frames), *frames),
            section_mapped(*space, *frames, *section, delta, i as int),
            frames.free_frames() + 3 * i >= old(frames).free_frames(),
            forall|w: u64|
                !(exists|k: int|
                    0 <= k < i && same_page(w, #[trigger] small_page_at(section.start, k), 0))
                    ==> #[trigger] space.translation(*frames, w) == space.translation(
                    *old(frames),
                    w,
                ),
    {
        let ghost before = *frames;
        let vaddr: u64 = section.start + i * 0x1000;
        let frame = Frame { number: phys / 0x1000 + i };
        assert(vaddr == small_page_at(section.start, i as int));
        proof {
            if section_is_sound(*section) {
                assert forall|k: int| 0 <= k < i implies !same_page(
                    vaddr,
                    #[trigger] small_page_at(section.start, k),
                    0,
                ) by {
                    upper_pages_are_apart(vaddr, small_page_at(section.start, k));
                }
                assert(space.translation(before, vaddr) == space.translation(*old(frames), vaddr));
            }
        }
        match map_one(space, frames, vaddr, frame, section.rights) {
            Err(error) => {
                assert(mapping_refused(
                    *space,
                    *frames,
                    small_page_at(section.start, i as int),
                    section.rights,
                    error,
                ));
                proof {
                    growing_goes_on(*old(frames), before, *frames);
                    assert forall|w: u64| space.translation(*old(frames), w) is Some implies (
                    #[trigger] space.translation(*frames, w)) == space.translation(
                        *old(frames),
                        w,
                    ) by {
                        assert(space.translation(before, w) == space.translation(*old(frames), w));
                    }
                }
                return Err(error);
            },
            Ok(()) => {},
        }
        proof {
            growing_goes_on(*old(frames), before, *frames);
            assert forall|k: int, w: u64|
                0 <= k < i + 1 && #[trigger] same_page(
                    w,
                    small_page_at(section.start, k),
                    0,
                ) implies space.translation(*frames, w) == Some(
                (
                    0nat,
                    (Frame {
                        number: (section_phys(*section, delta) / 0x1000 + k) as u64,
                    }.address() as u64) | leaf_bits(section.rights),
                ),
            ) by {
                if k < i {
                    assert(space.translation(before, w) is Some);
                }
            }
            assert forall|w: u64| space.translation(*old(frames), w) is Some implies (
            #[trigger] space.translation(*frames, w)) == space.translation(*old(frames), w) by {
                assert(space.translation(before, w) == space.translation(*old(frames), w));
            }
        }
    }
    Ok(())
}

/// `w` lies in one of the pages of a section.
pub open spec fn in_section(w: u64, section: Section) -> bool {
    exists|i: int|
        0 <= i < section_pages(section) && same_page(
            w,
            #[trigger] small_page_at(section.start, i),
            0,
        )
}

/// A section is made of pages of the upper half, with rights that pages may
/// have.
pub open spec fn section_is_sound(section: Section) -> bool {
    section_pages(section) > 0 ==> page_is_sound(section.start, section.rights)
}

/// No page lies in both sections.
pub open spec fn sections_apart(a: Section, b: Section) -> bool {
    ||| section_pages(a) == 0
    ||| section_pages(b) == 0
    ||| a.start + section_pages(a) * 0x1000 <= b.start
    ||| b.start + section_pages(b) * 0x1000 <= a.start
}

/// Large pages of the direct map.
pub open spec fn direct_pages(hhdm_pages: u64) -> int {
    (hhdm_pages + 511) / 512
}

/// The direct map translates every physical page it covers.
pub open spec fn direct_mapped(space: AddressSpace, frames: FrameAllocator, hhdm_pages: u64) -> bool {
    forall|i: int, w: u64|
        0 <= i < direct_pages(hhdm_pages) && #[trigger] same_page(
            w,
            large_page_at(HHDM_BASE, i),
            1,
        ) ==> space.translation(frames, w) == Some(
            (1nat, large_bits(large_page_at(0, i), data_rights())),
        )
}

/// Outside the direct map, the local APIC window and the sections of the image
/// nothing translates.
pub open spec fn maps_nothing_else(
    space: AddressSpace,
    frames: FrameAllocator,
    plan: KernelPlan,
) -> bool {
    forall|w: u64|
        !in_large_range(w, HHDM_BASE, direct_pages(plan.hhdm_pages)) && !(plan.lapic_phys is Some
            && same_page(w, LAPIC_VADDR, 0)) && !in_section(w, plan.text) && !in_section(
            w,
            plan.rodata,
        ) && !in_section(w, plan.data) ==> (#[trigger] space.translation(frames, w)) is None
}

/// Rights of ordinary kernel data.
pub open spec fn data_rights() -> Rights {
    Rights { read: true, write: true, execute: false, user: false, uncacheable: false }
}

/// Rights of device registers of the kernel.
pub open spec fn register_rights() -> Rights {
    Rights { read: true, write: true, execute: false, user: false, uncacheable: true }
}

/// The local APIC window translates to its registers, where it exists.
pub open spec fn lapic_mapped(space: AddressSpace, frames: FrameAllocator, plan: KernelPlan) -> bool {
    plan.lapic_phys matches Some(phys) ==> forall|w: u64| #[trigger]
        same_page(w, LAPIC_VADDR, 0) ==> space.translation(frames, w) == Some(
            (
                0nat,
                (Frame { number: phys / 0x1000 }.address() as u64) | leaf_bits(register_rights()),
            ),
        )
}

/// A plan that fits the address space.
pub open spec fn plan_ok(plan: KernelPlan) -> bool {
    &&& plan.hhdm_pages <= 0x7_FFFF_FE00
    &&& plan.lapic_phys matches Some(phys) ==> phys < 0x10_0000_0000_0000
    &&& section_ok(plan.text, plan.delta)
    &&& section_ok(plan.rodata, plan.delta)
    &&& section_ok(plan.data, plan.delta)
}

/// A step that keeps every translation keeps what was mapped.
proof fn mapped_stays(
    space: AddressSpace,
    before: FrameAllocator,
    after: FrameAllocator,
    plan: KernelPlan,
)
    requires
        keeps(space, before, after),
    ensures
        direct_mapped(space, before, plan.hhdm_pages) ==> direct_mapped(
            space,
            after,
            plan.hhdm_pages,
        ),
        lapic_mapped(space, before, plan) ==> lapic_mapped(space, after, plan),
        section_mapped(space, before, plan.text, plan.delta, section_pages(plan.text))
            ==> section_mapped(space, after, plan.text, plan.delta, section_pages(plan.text)),
        section_mapped(space, before, plan.rodata, plan.delta, section_pages(plan.rodata))
            ==> section_mapped(space, after, plan.rodata, plan.delta, section_pages(plan.rodata)),
{
    assert forall|w: u64| space.translation(before, w) is Some implies (#[trigger] space.translation(
        before,
        w,
    )) == space.translation(after, w) by {
        assert(space.translation(after, w) == space.translation(before, w));
    }
}

/// Why the kernel's own space cannot be built: the frames are used up, or a
/// part of the plan is not a page, permits what no page may permit, or meets
/// another part.
pub open spec fn plan_refused(
    space: AddressSpace,
    frames: FrameAllocator,
    plan: KernelPlan,
    e: MapError,
) -> bool {
    ||| e == MapError::OutOfMemory && frames.free_frames() < 3
    ||| exists|i: int|
        0 <= i < direct_pages(plan.hhdm_pages) && #[trigger] space.large_page_refused(
            frames,
            large_page_at(HHDM_BASE, i),
            e,
        )
    ||| plan.lapic_phys is Some && mapping_refused(
        space,
        frames,
        LAPIC_VADDR,
        register_rights(),
        e,
    )
    ||| section_refused(space, frames, plan.text, e)
    ||| section_refused(space, frames, plan.rodata, e)
    ||| section_refused(space, frames, plan.data, e)
}

/// No part of a plan meets another, and each is made of pages with rights that
/// pages may have.
pub open spec fn plan_is_sound(plan: KernelPlan) -> bool {
    &&& HHDM_BASE + direct_pages(plan.hhdm_pages) * 0x20_0000 <= LAPIC_VADDR
    &&& section_is_placed(plan.text)
    &&& section_is_placed(plan.rodata)
    &&& section_is_placed(plan.data)
    &&& sections_apart(plan.text, plan.rodata)
    &&& sections_apart(plan.text, plan.data)
    &&& sections_apart(plan.rodata, plan.data)
}

/// A sound section that lies where the kernel image does.
pub open spec fn section_is_placed(section: Section) -> bool {
    &&& section_is_sound(section)
    &&& section_pages(section) > 0 ==> section.start >= KERNEL_IMAGE_BASE
}

/// Frames that the tables of a plan take at most.
pub open spec fn plan_frames(plan: KernelPlan) -> int {
    4 + 2 * direct_pages(plan.hhdm_pages) + 3 * (1 + section_pages(plan.text) + section_pages(
        plan.rodata,
    ) + section_pages(plan.data))
}

/// No page of the second section lies in the first.
proof fn apart_sections_share_no_page(a: Section, b: Section, i: int)
    requires
        section_is_placed(a),
        section_is_placed(b),
        sections_apart(a, b),
        a.start + section_pages(a) * 0x1000 <= u64::MAX,
        b.start + section_pages(b) * 0x1000 <= u64::MAX,
        0 <= i < section_pages(b),
    ensures
        !in_section(small_page_at(b.start, i), a),
{
    assert forall|k: int| 0 <= k < section_pages(a) implies !same_page(
        small_page_at(b.start, i),
        #[trigger] small_page_at(a.start, k),
        0,
    ) by {
        upper_pages_are_apart(small_page_at(b.start, i), small_page_at(a.start, k));
    }
}

/// Nothing above the direct map lies in one of its pages.
proof fn above_the_direct_map(v: u64, count: int)
    requires
        0 <= count,
        HHDM_BASE + count * 0x20_0000 <= v,
    ensures
        !in_large_range(v, HHDM_BASE, count),
{
    assert forall|i: int| 0 <= i < count implies !(#[trigger] same_page(
        v,
        large_page_at(HHDM_BASE, i),
        1,
    )) by {
        let w = large_page_at(HHDM_BASE, i);
        upper_page_number(v);
        upper_page_number(w);
        prefix_continues(v, 1);
        prefix_continues(w, 1);
    }
}

/// No page at or above `from` translates.
pub open spec fn clear_above(space: AddressSpace, frames: FrameAllocator, from: u64) -> bool {
    forall|v: u64|
        v >= from && v % 0x1000 == 0 ==> (#[trigger] space.translation(frames, v)) is None
}

/// Slots of the kernel stay where tables only grow.
proof fn slots_stay(before: FrameAllocator, after: FrameAllocator, r: int)
    requires
        interior_kept(before, after),
        is_root(before, r),
        has_kernel_slots(before, r),
    ensures
        has_kernel_slots(after, r),
{
    assert forall|k: int| #[trigger] is_kernel_slot(k) implies shares_slot(after, r, r, k) by {
        sharing_stays(before, after, r, r, k);
    }
}

/// Makes the kernel's address space, with the direct map in large pages and
/// nothing else.
fn map_direct(frames: &mut FrameAllocator, plan: &KernelPlan) -> (result: Result<
    AddressSpace,
    MapError,
>)
    requires
        old(frames).wf(),
        plan_ok(*plan),
    ensures
        final(frames).wf(),
        result matches Err(e) ==> exists|space: AddressSpace| #[trigger]
            plan_refused(space, *final(frames), *plan, e),
        result matches Ok(space) ==> {
            &&& space.lives_in(*final(frames))
            &&& direct_mapped(space, *final(frames), plan.hhdm_pages)
            &&& has_kernel_slots(*final(frames), space.root.number as int)
            &&& grows(*old(frames), *final(frames))
            &&& plan_is_sound(*plan) ==> clear_above(space, *final(frames), LAPIC_VADDR)
            &&& forall|w: u64|
                !in_large_range(w, HHDM_BASE, direct_pages(plan.hhdm_pages)) ==> (
                #[trigger] space.translation(*final(frames), w)) is None
            &&& final(frames).free_frames() + 4 + 2 * direct_pages(plan.hhdm_pages) >= old(
                frames,
            ).free_frames()
        },
        plan_is_sound(*plan) && holds_no_table(*old(frames)) && old(frames).free_frames() >= 4 + 2
            * direct_pages(plan.hhdm_pages) ==> result is Ok,
{
    let space = match AddressSpace::new(frames, Owner::Kernel) {
        Err(error) => {
            assert(plan_refused(AddressSpace { root: Frame { number: 0 } }, *frames, *plan, error));
            return Err(error);
        },
        Ok(space) => space,
    };
    let ghost fresh = *frames;
    match space.create_kernel_slots(frames) {
        Err(error) => {
            assert(plan_refused(space, *frames, *plan, error));
            return Err(error);
        },
        Ok(()) => {},
    }
    assert(is_root(*frames, space.root.number as int));
    let ghost slotted = *frames;
    proof {
        assert forall|v: u64| #[trigger] space.translation(slotted, v) is None by {
            assert(space.translation(fresh, v) is None);
            assert(walk(slotted, space.root.number as int, v) == walk(
                fresh,
                space.root.number as int,
                v,
            ));
        }
        if plan_is_sound(*plan) && holds_no_table(*old(frames)) {
            assert(no_lowest(fresh));
            assert(no_lowest(slotted));
            assert(space.takes_large_range(slotted, HHDM_BASE, direct_pages(plan.hhdm_pages)));
        }
    }
    // The direct map uses large entries: it maps memory the kernel already owns,
    // so there is nothing to split later and no per-page right to express.
    let large_pages: u64 = (plan.hhdm_pages + 511) / 512;
    match space.map_large_range(HHDM_BASE, 0, large_pages, Rights::kernel_rw(), frames) {
        Err(error) => {
            assert(plan_refused(space, *frames, *plan, error));
            return Err(error);
        },
        Ok(()) => {},
    }
    proof {
        assert(grows(*old(frames), fresh));
        assert(grows(fresh, slotted));
        assert(is_root(*frames, space.root.number as int));
        assert(grows(slotted, *frames));
        growing_goes_on(*old(frames), fresh, slotted);
        growing_goes_on(*old(frames), slotted, *frames);
        slots_stay(slotted, *frames, space.root.number as int);
        assert forall|w: u64|
            !in_large_range(w, HHDM_BASE, direct_pages(plan.hhdm_pages)) implies (
        #[trigger] space.translation(*frames, w)) is None by {
            assert(space.translation(slotted, w) is None);
            assert(walk(*frames, space.root.number as int, w) == walk(
                slotted,
                space.root.number as int,
                w,
            ));
        }
        if plan_is_sound(*plan) {
            assert forall|v: u64| v >= LAPIC_VADDR && v % 0x1000 == 0 implies (
            #[trigger] space.translation(*frames, v)) is None by {
                above_the_direct_map(v, direct_pages(plan.hhdm_pages));
                assert(space.translation(slotted, v) is None);
                assert(walk(*frames, space.root.number as int, v) == walk(
                    slotted,
                    space.root.number as int,
                    v,
                ));
            }
        }
    }
    Ok(space)
}

/// Maps the local APIC window, where it exists.
fn map_registers(space: &AddressSpace, frames: &mut FrameAllocator, plan: &KernelPlan) -> (result:
    Result<(), MapError>)
    requires
        old(frames).wf(),
        space.lives_in(*old(frames)),
        plan_ok(*plan),
    ensures
        final(frames).wf(),
        space.lives_in(*final(frames)),
        keeps(*space, *old(frames), *final(frames)),
        grows(*old(frames), *final(frames)),
        result matches Err(e) ==> plan_refused(*space, *final(frames), *plan, e),
        forall|w: u64|
            !(plan.lapic_phys is Some && same_page(w, LAPIC_VADDR, 0))
                ==> #[trigger] space.translation(*final(frames), w) == space.translation(
                *old(frames),
                w,
            ),
        result is Ok ==> {
            &&& lapic_mapped(*space, *final(frames), *plan)
            &&& final(frames).free_frames() + 3 >= old(frames).free_frames()
            &&& clear_above(*space, *old(frames), LAPIC_VADDR) ==> clear_above(
                *space,
                *final(frames),
                (LAPIC_VADDR + 0x1000) as u64,
            )
        },
        clear_above(*space, *old(frames), LAPIC_VADDR) && old(frames).free_frames() >= 3
            ==> result is Ok,
{
    match plan.lapic_phys {
        None => Ok(()),
        Some(phys) => {
            let rights = Rights {
                read: true,
                write: true,
                execute: false,
                user: false,
                uncacheable: true,
            };
            let result = map_one(
                space,
                frames,
                LAPIC_VADDR,
                Frame { number: phys / 0x1000 },
                rights,
            );
            proof {
                if clear_above(*space, *old(frames), LAPIC_VADDR) {
                    assert(space.translation(*old(frames), LAPIC_VADDR) is None);
                    assert forall|v: u64| v >= LAPIC_VADDR + 0x1000 && v % 0x1000 == 0 implies (
                    #[trigger] space.translation(*frames, v)) is None by {
                        upper_pages_are_apart(v, LAPIC_VADDR);
                        assert(space.translation(*old(frames), v) is None);
                    }
                }
            }
            result
        },
    }
}

/// Every section of the image translates, with its rights.
pub open spec fn image_mapped(space: AddressSpace, frames: FrameAllocator, plan: KernelPlan) -> bool {
    &&& section_mapped(space, frames, plan.text, plan.delta, section_pages(plan.text))
    &&& section_mapped(space, frames, plan.rodata, plan.delta, section_pages(plan.rodata))
    &&& section_mapped(space, frames, plan.data, plan.delta, section_pages(plan.data))
}

/// Maps the sections of the image.
fn map_image(space: &AddressSpace, frames: &mut FrameAllocator, plan: &KernelPlan) -> (result:
    Result<(), MapError>)
    requires
        old(frames).wf(),
        space.lives_in(*old(frames)),
        plan_ok(*plan),
    ensures
        final(frames).wf(),
        space.lives_in(*final(frames)),
        result matches Err(e) ==> plan_refused(*space, *final(frames), *plan, e),
        result is Ok ==> image_mapped(*space, *final(frames), *plan),
        result is Ok ==> keeps(*space, *old(frames), *final(frames)),
        result is Ok ==> grows(*old(frames), *final(frames)),
        result is Ok ==> forall|w: u64|
            !in_section(w, plan.text) && !in_section(w, plan.rodata) && !in_section(w, plan.data)
                ==> #[trigger] space.translation(*final(frames), w) == space.translation(
                *old(frames),
                w,
            ),
        plan_is_sound(*plan) && clear_above(
            *space,
            *old(frames),
            (LAPIC_VADDR + 0x1000) as u64,
        ) && old(frames).free_frames() >= 3 * (section_pages(plan.text) + section_pages(plan.rodata)
            + section_pages(plan.data)) ==> result is Ok,
{
    let ghost first = *frames;
    let ghost sound = plan_is_sound(*plan) && clear_above(
        *space,
        first,
        (LAPIC_VADDR + 0x1000) as u64,
    );
    proof {
        if sound {
            section_is_clear(*space, first, plan.text);
            section_is_clear(*space, first, plan.rodata);
            section_is_clear(*space, first, plan.data);
        }
    }
    match map_kernel_range(space, frames, &plan.text, plan.delta) {
        Err(error) => {
            return Err(error);
        },
        Ok(()) => {},
    }
    let ghost coded = *frames;
    proof {
        if sound {
            assert forall|i: int| 0 <= i < section_pages(plan.rodata) implies space.translation(
                coded,
                #[trigger] small_page_at(plan.rodata.start, i),
            ) is None by {
                apart_sections_share_no_page(plan.text, plan.rodata, i);
            }
        }
    }
    match map_kernel_range(space, frames, &plan.rodata, plan.delta) {
        Err(error) => {
            return Err(error);
        },
        Ok(()) => {},
    }
    let ghost constant = *frames;
    proof {
        if sound {
            assert forall|i: int| 0 <= i < section_pages(plan.data) implies space.translation(
                constant,
                #[trigger] small_page_at(plan.data.start, i),
            ) is None by {
                let v = small_page_at(plan.data.start, i);
                apart_sections_share_no_page(plan.text, plan.data, i);
                apart_sections_share_no_page(plan.rodata, plan.data, i);
                assert(space.translation(coded, v) is None);
            }
        }
    }
    match map_kernel_range(space, frames, &plan.data, plan.delta) {
        Err(error) => {
            return Err(error);
        },
        Ok(()) => {},
    }
    proof {
        mapped_stays(*space, coded, constant, *plan);
        mapped_stays(*space, constant, *frames, *plan);
        keeping_is_transitive(*space, first, coded, constant);
        keeping_is_transitive(*space, first, constant, *frames);
        growing_goes_on(first, coded, constant);
        growing_goes_on(first, constant, *frames);
        assert forall|w: u64|
            !in_section(w, plan.text) && !in_section(w, plan.rodata) && !in_section(
                w,
                plan.data,
            ) implies #[trigger] space.translation(*frames, w) == space.translation(first, w) by {
            assert(space.translation(constant, w) == space.translation(coded, w));
            assert(space.translation(coded, w) == space.translation(first, w));
        }
    }
    Ok(())
}

/// A page below the kernel image is in none of its sections.
proof fn below_the_image(w: u64, section: Section)
    requires
        section_is_placed(section),
        section.start + section_pages(section) * 0x1000 <= u64::MAX,
        w % 0x1000 == 0,
        HHDM_BASE <= w < KERNEL_IMAGE_BASE,
    ensures
        !in_section(w, section),
{
    assert forall|i: int| 0 <= i < section_pages(section) implies !same_page(
        w,
        #[trigger] small_page_at(section.start, i),
        0,
    ) by {
        upper_pages_are_apart(w, small_page_at(section.start, i));
    }
}

proof fn section_is_clear(space: AddressSpace, frames: FrameAllocator, section: Section)
    requires
        clear_above(space, frames, (LAPIC_VADDR + 0x1000) as u64),
        section_is_placed(section),
        section.start + section_pages(section) * 0x1000 <= u64::MAX,
    ensures
        forall|i: int|
            0 <= i < section_pages(section) ==> space.translation(
                frames,
                #[trigger] small_page_at(section.start, i),
            ) is None,
{
    assert forall|i: int| 0 <= i < section_pages(section) implies space.translation(
        frames,
        #[trigger] small_page_at(section.start, i),
    ) is None by {
        let v = small_page_at(section.start, i);
        assert(v % 0x1000 == 0 && v >= LAPIC_VADDR + 0x1000);
    }
}

proof fn keeping_is_transitive(
    space: AddressSpace,
    a: FrameAllocator,
    b: FrameAllocator,
    c: FrameAllocator,
)
    requires
        keeps(space, a, b),
        keeps(space, b, c),
    ensures
        keeps(space, a, c),
{
    assert forall|w: u64| space.translation(a, w) is Some implies #[trigger] space.translation(c, w)
        == space.translation(a, w) by {
        assert(space.translation(b, w) == space.translation(a, w));
    }
}

/// No frame serves as a table.
pub open spec fn holds_no_table(frames: FrameAllocator) -> bool {
    forall|i: int| 0 <= i < frames.frames() ==> #[trigger] frames.labels_spec()[i] is None
}

/// Builds the address space the kernel runs in: the direct map in large pages,
/// the local APIC window where it exists, and the image with the rights of its
/// sections.
///
/// From frames that hold no table yet, a sound plan succeeds if there are enough
/// of them.
pub fn build_kernel_space(frames: &mut FrameAllocator, plan: &KernelPlan) -> (result: Result<
    AddressSpace,
    MapError,
>)
    requires
        old(frames).wf(),
        plan_ok(*plan),
    ensures
        final(frames).wf(),
        plan_is_sound(*plan) && holds_no_table(*old(frames)) && old(frames).free_frames()
            >= plan_frames(*plan) ==> result is Ok,
        result matches Err(e) ==> exists|space: AddressSpace| #[trigger]
            plan_refused(space, *final(frames), *plan, e),
        result matches Ok(space) ==> {
            &&& space.lives_in(*final(frames))
            &&& direct_mapped(space, *final(frames), plan.hhdm_pages)
            &&& lapic_mapped(space, *final(frames), *plan)
            &&& image_mapped(space, *final(frames), *plan)
            &&& maps_nothing_else(space, *final(frames), *plan)
            &&& has_kernel_slots(*final(frames), space.root.number as int)
            &&& grows(*old(frames), *final(frames))
            &&& plan_is_sound(*plan) ==> stacks_are_clear(space, *final(frames))
        },
{
    let space = match map_direct(frames, plan) {
        Err(error) => {
            return Err(error);
        },
        Ok(space) => space,
    };
    let ghost direct = *frames;
    match map_registers(&space, frames, plan) {
        Err(error) => {
            assert(plan_refused(space, *frames, *plan, error));
            return Err(error);
        },
        Ok(()) => {},
    }
    let ghost windowed = *frames;
    match map_image(&space, frames, plan) {
        Err(error) => {
            assert(plan_refused(space, *frames, *plan, error));
            return Err(error);
        },
        Ok(()) => {},
    }
    proof {
        mapped_stays(space, direct, windowed, *plan);
        mapped_stays(space, windowed, *frames, *plan);
        growing_goes_on(*old(frames), direct, windowed);
        growing_goes_on(*old(frames), windowed, *frames);
        slots_stay(direct, windowed, space.root.number as int);
        slots_stay(windowed, *frames, space.root.number as int);
        assert forall|w: u64|
            !in_large_range(w, HHDM_BASE, direct_pages(plan.hhdm_pages)) && !(plan.lapic_phys is Some
                && same_page(w, LAPIC_VADDR, 0)) && !in_section(w, plan.text) && !in_section(
                w,
                plan.rodata,
            ) && !in_section(w, plan.data) implies (#[trigger] space.translation(
            *frames,
            w,
        )) is None by {
            assert(space.translation(windowed, w) == space.translation(direct, w));
        }
        if plan_is_sound(*plan) {
            assert forall|slot: int, page: int|
                0 <= slot < MAX_THREADS && -1 <= page < KSTACK_PAGES implies space.translation(
                *frames,
                #[trigger] stack_page(slot, page),
            ) is None by {
                stack_pages_are_dynamic(slot, page);
                let w = stack_page(slot, page);
                below_the_image(w, plan.text);
                below_the_image(w, plan.rodata);
                below_the_image(w, plan.data);
                assert(space.translation(windowed, w) is None);
            }
        }
    }
    Ok(space)
}

/// Top of the stack the loader left the kernel on.
pub fn boot_stack_top(info: &BootInfo) -> (top: u64)
    requires
        info.boot_stack_phys + info.boot_stack_pages * 0x1000 < 0x8000_0000_0000,
    ensures
        top == HHDM_BASE + info.boot_stack_phys + info.boot_stack_pages * 0x1000,
{
    assert(info.boot_stack_pages <= 0x8_0000_0000);
    HHDM_BASE + info.boot_stack_phys + info.boot_stack_pages * PAGE_SIZE
}

/// The first supervisor among the modules from `from` on, or their number.
pub open spec fn first_supervisor(modules: Seq<BootModule>, from: int) -> int
    decreases modules.len() - from,
{
    if from >= modules.len() {
        modules.len() as int
    } else if modules[from].kind == module_kind::SUPERVISOR {
        from
    } else {
        first_supervisor(modules, from + 1)
    }
}

/// The supervisor a package carries.
///
/// A package that carries one gets exactly that domain, with an explicit
/// capability manifest. A package without one has every module instantiated.
pub fn find_supervisor(modules: &Vec<BootModule>) -> (found: Option<usize>)
    ensures
        ({
            let at = first_supervisor(modules@, 0);
            if at < modules@.len() {
                found == Some(at as usize)
            } else {
                found is None
            }
        }),
        found matches Some(i) ==> i < modules@.len(),
{
    let mut i: usize = 0;
    while i < modules.len()
        invariant
            i <= modules@.len(),
            first_supervisor(modules@, 0) == first_supervisor(modules@, i as int),
        decreases modules@.len() - i,
    {
        if modules[i].kind == module_kind::SUPERVISOR {
            return Some(i);
        }
        i += 1;
    }
    None
}

/// The modules that hold ordinary programs.
pub fn user_images(modules: &Vec<BootModule>) -> (images: Vec<BootModule>)
    ensures
        images@ == modules@.filter(|m: BootModule| m.kind == module_kind::USER_ELF),
{
    let mut images: Vec<BootModule> = Vec::new();
    let ghost wanted = |m: BootModule| m.kind == module_kind::USER_ELF;
    assert(modules@.take(0).filter(wanted) =~= Seq::<BootModule>::empty()) by {
        reveal(Seq::filter);
    }
    for i in 0..modules.len()
        invariant
            wanted == (|m: BootModule| m.kind == module_kind::USER_ELF),
            images@ == modules@.take(i as int).filter(wanted),
    {
        proof {
            reveal(Seq::filter);
            assert(modules@.take(i + 1).drop_last() =~= modules@.take(i as int));
            assert(modules@.take(i + 1).last() == modules@[i as int]);
        }
        if modules[i].kind == module_kind::USER_ELF {
            images.push(modules[i]);
        }
    }
    assert(modules@.take(modules@.len() as int) =~= modules@);
    images
}

/// Why a module does not become a domain.
#[derive(Clone, Copy, PartialEq, Eq, Debug, Structural)]
pub enum ModuleReject {
    /// It holds no program.
    UnsupportedKind,
    /// Its domain could not be created.
    Creation(CreateError),
}

impl ModuleReject {
    /// Short name used in diagnostic records.
    pub fn name(self) -> (text: &'static str)
        ensures
            match self {
                ModuleReject::UnsupportedKind => text@ == "unsupported_kind"@,
                ModuleReject::Creation(e) => text@ == e.name_spec(),
            },
    {
        match self {
            ModuleReject::UnsupportedKind => "unsupported_kind",
            ModuleReject::Creation(error) => error.name(),
        }
    }
}

/// Creates the domain of one module, directly below the root scope.
///
/// The domain is activated once the bytes of its image have been copied.
pub fn create_module(machine: &mut Machine, root: u16, module: &BootModule, image: &[u8]) -> (result:
    Result<Created, ModuleReject>)
    requires
        old(machine).wf(),
        old(machine)@.kernel_space is Some,
        root < MAX_SCOPES,
        image@.len() <= usize::MAX,
    ensures
        final(machine).wf(),
        if module.kind != module_kind::USER_ELF {
            &&& result matches Err(e) && e == ModuleReject::UnsupportedKind
            &&& final(machine)@ == old(machine)@
        } else {
            exists|made: Result<Created, CreateError>|
                {
                    &&& #[trigger] creation(
                        *old(machine),
                        module.name@.take(name_length(module.name@, 0)),
                        image@,
                        root,
                        false,
                        None,
                        *final(machine),
                        made,
                    )
                    &&& match made {
                        Ok(domain) => result matches Ok(d) && d == domain,
                        Err(error) => result matches Err(e) && e == ModuleReject::Creation(error),
                    }
                }
        },
{
    if module.kind != module_kind::USER_ELF {
        return Err(ModuleReject::UnsupportedKind);
    }
    let name = module_name(module);
    let made = create_in(machine, name.as_slice(), image, root, false, None);
    let ghost answer = made;
    assert(creation(
        *old(machine),
        module.name@.take(name_length(module.name@, 0)),
        image@,
        root,
        false,
        None,
        *machine,
        answer,
    ));
    match made {
        Ok(domain) => Ok(domain),
        Err(error) => Err(ModuleReject::Creation(error)),
    }
}

/// How a domain is protected.
#[derive(Clone, Copy, Debug, PartialEq, Eq, Structural)]
pub struct Protection {
    /// The page-table entry of its entry point, or zero.
    pub entry_flags: u64,
    /// Address of the guard page below its stack.
    pub guard: u64,
    /// Whether the guard page is mapped.
    pub guard_mapped: bool,
    /// Whether the page at zero is mapped.
    pub null_mapped: bool,
}

/// Address of the guard page below a domain's first stack.
pub open spec fn guard_page() -> u64 {
    (USER_STACK_TOP - USER_STACK_PAGES * 0x1000 - 0x1000) as u64
}

/// Looks up what protects a domain.
pub fn protection(machine: &Machine, d: usize) -> (found: Protection)
    requires
        machine.wf(),
        d < MAX_DOMAINS,
    ensures
        found == (Protection {
            entry_flags: match machine@.translated(
                d as int,
                machine@.domains[d as int].entry,
            ) {
                Some(entry) => entry,
                None => 0,
            },
            guard: guard_page(),
            guard_mapped: machine@.translated(d as int, guard_page()) is Some,
            null_mapped: machine@.translated(d as int, 0) is Some,
        }),
{
    let guard: u64 = USER_STACK_TOP - USER_STACK_PAGES * PAGE_SIZE - PAGE_SIZE;
    let domain = machine.domain(d);
    let entry_flags: u64 = match machine.translate(d, domain.entry) {
        Some(entry) => entry,
        None => 0,
    };
    let guard_mapped = machine.translate(d, guard).is_some();
    let null_mapped = machine.translate(d, 0).is_some();
    Protection { entry_flags, guard, guard_mapped, null_mapped }
}

/// Two ranges of bytes meet.
pub open spec fn ranges_meet(a: int, a_end: int, b: int, b_end: int) -> bool {
    a < b_end && b < a_end
}

/// A region comes back once the boot is over: what held modules, and what the
/// loader used and the kernel does not stand on.
pub open spec fn comes_back(region: MemoryRegion, stack: int, stack_end: int) -> bool {
    ||| region.kind == region_kind::MODULES
    ||| region.kind == region_kind::BOOT_RECLAIMABLE && !ranges_meet(
        region.base as int,
        region.base + region.pages * 0x1000,
        stack,
        stack_end,
    )
}

/// The uses once the first `n` regions have been considered.
pub open spec fn boot_reclaimed(
    uses: Seq<FrameUse>,
    regions: Seq<MemoryRegion>,
    stack: int,
    stack_end: int,
    n: int,
) -> Seq<FrameUse>
    decreases n,
{
    if n <= 0 {
        uses
    } else {
        let before = boot_reclaimed(uses, regions, stack, stack_end, n - 1);
        if comes_back(regions[n - 1], stack, stack_end) {
            run_reclaimed(
                before,
                regions[n - 1].base as int / 0x1000,
                regions[n - 1].pages as int,
            )
        } else {
            before
        }
    }
}

/// Frames that become available with those of the first `n` regions that are of
/// `kind`.
pub open spec fn frames_of_kind(
    kind: u32,
    uses: Seq<FrameUse>,
    regions: Seq<MemoryRegion>,
    stack: int,
    stack_end: int,
    n: int,
) -> int
    decreases n,
{
    if n <= 0 {
        0
    } else {
        frames_of_kind(kind, uses, regions, stack, stack_end, n - 1) + if regions[n - 1].kind
            == kind {
            count_use(boot_reclaimed(uses, regions, stack, stack_end, n), FrameUse::Free)
                - count_use(
                boot_reclaimed(uses, regions, stack, stack_end, n - 1),
                FrameUse::Free,
            )
        } else {
            0
        }
    }
}

/// Takes back what the boot needed and nothing needs any more; returns the
/// frames of modules and those of the loader.
///
/// The stack of the boot is left out: the first idle thread stands on it.
pub fn reclaim_boot_memory(
    machine: &mut Machine,
    regions: &Vec<MemoryRegion>,
    stack_phys: u64,
    stack_pages: u64,
) -> (counts: (u64, u64))
    requires
        old(machine).wf(),
        regions_ok(regions@),
        stack_phys + stack_pages * 0x1000 <= 0x10_0000_0000_0000,
    ensures
        final(machine).wf(),
        final(machine).same_tables(*old(machine)),
        final(machine)@ == (MachineModel {
            uses: boot_reclaimed(
                old(machine)@.uses,
                regions@,
                stack_phys as int,
                stack_phys + stack_pages * 0x1000,
                regions@.len() as int,
            ),
            ..old(machine)@
        }),
        counts.0 == frames_of_kind(
            region_kind::MODULES,
            old(machine)@.uses,
            regions@,
            stack_phys as int,
            stack_phys + stack_pages * 0x1000,
            regions@.len() as int,
        ),
        counts.1 == frames_of_kind(
            region_kind::BOOT_RECLAIMABLE,
            old(machine)@.uses,
            regions@,
            stack_phys as int,
            stack_phys + stack_pages * 0x1000,
            regions@.len() as int,
        ),
        count_use(final(machine)@.uses, FrameUse::Free) == count_use(
            old(machine)@.uses,
            FrameUse::Free,
        ) + counts.0 + counts.1,
{
    assert(stack_pages <= 0x100_0000_0000);
    let stack_end: u64 = stack_phys + stack_pages * PAGE_SIZE;
    let mut module_frames: u64 = 0;
    let mut loader_frames: u64 = 0;
    for i in 0..regions.len()
        invariant
            machine.wf(),
            machine.same_tables(*old(machine)),
            regions_ok(regions@),
            stack_end == stack_phys + stack_pages * 0x1000,
            module_frames <= i * 0x100_0000,
            loader_frames <= i * 0x100_0000,
            module_frames == frames_of_kind(
                region_kind::MODULES,
                old(machine)@.uses,
                regions@,
                stack_phys as int,
                stack_end as int,
                i as int,
            ),
            loader_frames == frames_of_kind(
                region_kind::BOOT_RECLAIMABLE,
                old(machine)@.uses,
                regions@,
                stack_phys as int,
                stack_end as int,
                i as int,
            ),
            machine@ == (MachineModel {
                uses: boot_reclaimed(
                    old(machine)@.uses,
                    regions@,
                    stack_phys as int,
                    stack_end as int,
                    i as int,
                ),
                ..old(machine)@
            }),
            count_use(machine@.uses, FrameUse::Free) == count_use(
                old(machine)@.uses,
                FrameUse::Free,
            ) + module_frames + loader_frames,
    {
        let region = regions[i];
        assert(regions@[i as int].base + regions@[i as int].pages * 0x1000
            <= 0x10_0000_0000_0000);
        assert(region.pages <= 0x100_0000_0000);
        let start: u64 = region.base;
        let end: u64 = region.base + region.pages * PAGE_SIZE;
        if region.kind == region_kind::MODULES {
            module_frames += machine.reclaim(start / PAGE_SIZE, region.pages);
        } else if region.kind == region_kind::BOOT_RECLAIMABLE && !(start < stack_end && stack_phys
            < end) {
            loader_frames += machine.reclaim(start / PAGE_SIZE, region.pages);
        }
    }
    (module_frames, loader_frames)
}

/// The stack of the boot is not handed out while the first idle thread stands
/// on it.
pub proof fn boot_stack_stays(
    uses: Seq<FrameUse>,
    regions: Seq<MemoryRegion>,
    stack: int,
    stack_end: int,
    n: int,
    frame: int,
)
    requires
        0 <= n <= regions.len(),
        0 <= frame < uses.len(),
        stack <= frame * 0x1000 < stack_end,
        stack % 0x1000 == 0,
        forall|i: int|
            0 <= i < regions.len() ==> (#[trigger] regions[i]).base as int % 0x1000 == 0
                && !(regions[i].kind == region_kind::MODULES && covers(regions[i], frame)),
    ensures
        boot_reclaimed(uses, regions, stack, stack_end, n).len() == uses.len(),
        boot_reclaimed(uses, regions, stack, stack_end, n)[frame] == uses[frame],
    decreases n,
{
    if n > 0 {
        boot_stack_stays(uses, regions, stack, stack_end, n - 1, frame);
        let region = regions[n - 1];
        if covers(region, frame) {
            assert(region.base <= frame * 0x1000 < region.base + region.pages * 0x1000);
        }
    }
}

/// Returns the frames that deferred reclamation was still holding, once every
/// processor that takes part has flushed past the latest invalidation; returns
/// how many.
pub fn drain_quarantine(machine: &mut Machine) -> (released: u64)
    requires
        old(machine).wf(),
    ensures
        final(machine).wf(),
        final(machine).same_tables(*old(machine)),
        ({
            let quiet = old(machine)@.flushed_past(
                Seq::new(MAX_CPUS as nat, |c: int| old(machine)@.cpus[c].online),
                old(machine)@.published,
            );
            &&& final(machine)@ == if quiet {
                (MachineModel { uses: quarantine_drained(old(machine)@.uses), ..old(machine)@ })
            } else {
                old(machine)@
            }
            &&& count_use(final(machine)@.uses, FrameUse::Free) == count_use(
                old(machine)@.uses,
                FrameUse::Free,
            ) + released
        }),
{
    let generation: u64 = machine.published;
    if !all_flushed(machine, generation) {
        return 0;
    }
    machine.drain_quarantine()
}

} // verus!
