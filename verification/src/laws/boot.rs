//! The boot: which memory is whose before anything runs, and what the first scope
//! and the first programs are given.

use vstd::prelude::*;

use crate::boot::{boot_reclaimed, covers, first_supervisor, handoff_fault, is_usable};
use crate::bytes::le;
use crate::laws::images::header_at;
use crate::limits::{CPU_WINDOW_NS, MAX_SCOPES, MAX_THREADS};
use crate::loader::elf as kernel_elf;
use crate::loader::package::{
    good_name, is_graphic, is_padded_name, payloads_overlap, record_base, record_fault,
    record_name,
};
use crate::loader::prepare::{
    category, flags_of, gibibytes_for, highest, module_record, region_of, Descriptor, GIB,
};
use crate::mm::{
    count_use, quarantine_drained, quarantine_moved, run_given_back, run_reclaimed, run_taken,
    FrameUse, Owner,
};
use crate::page_table::{NO_EXECUTE, WRITABLE};
use crate::protocol::{
    module_kind, region_kind, BootInfo, BootModule, MemoryRegion, BOOTINFO_MAGIC, HHDM_BASE,
    KERNEL_IMAGE_BASE, MAX_MEMORY_REGIONS, MAX_MODULES,
};
use crate::scope::State;
use crate::state::MachineModel;

verus! {

/// What the firmware calls a piece of memory decides who may have it: only what is
/// free, or was the firmware's until the boot was over, is usable at once; what the
/// loader uses comes back later; what the firmware goes on using never does.
pub proof fn memory_is_sorted_by_what_it_is(kind: u32)
    ensures
        category(kind) == region_kind::USABLE <==> kind == 3 || kind == 4 || kind == 7,
        kind == 1 || kind == 2 ==> category(kind) == region_kind::BOOT_RECLAIMABLE,
        kind == 5 || kind == 6 ==> category(kind) == region_kind::FIRMWARE_RUNTIME,
        kind == 8 ==> category(kind) == region_kind::UNUSABLE,
        kind == 9 ==> category(kind) == region_kind::ACPI_RECLAIMABLE,
        kind == 10 ==> category(kind) == region_kind::ACPI_NVS,
        kind == 11 || kind == 12 ==> category(kind) == region_kind::MMIO,
        kind == 0 || 13 <= kind < 0x8000_0000 ==> category(kind) == region_kind::RESERVED,
{
}

/// A region of the hand-off is the firmware's descriptor: the same start, the same
/// pages, and the kind its type is sorted into.
pub proof fn a_region_is_its_descriptor(descriptor: Descriptor)
    ensures
        region_of(descriptor).base == descriptor.phys_start,
        region_of(descriptor).pages == descriptor.page_count,
        region_of(descriptor).kind == category(descriptor.kind),
        region_of(descriptor).flags == 0,
{
}

/// The extent of the memory map is the end of its highest descriptor: none that
/// counts ends above it, and one ends there unless there is none.
pub proof fn the_extent_is_the_highest_end(map: Seq<Descriptor>, ram: bool, n: int)
    requires
        0 <= n <= map.len(),
    ensures
        forall|i: int|
            0 <= i < n && (!ram || crate::loader::prepare::names_ram((#[trigger] map[i]).kind))
                ==> map[i].phys_start + map[i].page_count * 0x1000 <= highest(map, ram, n),
        highest(map, ram, n) == 0 || exists|i: int|
            0 <= i < n && (!ram || crate::loader::prepare::names_ram((#[trigger] map[i]).kind))
                && map[i].phys_start + map[i].page_count * 0x1000 == highest(map, ram, n),
        highest(map, ram, n) >= 0,
    decreases n,
{
    if n > 0 {
        the_extent_is_the_highest_end(map, ram, n - 1);
        let below = highest(map, ram, n - 1);
        let last = map[n - 1];
        if highest(map, ram, n) == below && below != 0 {
            let i = choose|i: int|
                0 <= i < n - 1 && (!ram || crate::loader::prepare::names_ram(
                    (#[trigger] map[i]).kind,
                )) && map[i].phys_start + map[i].page_count * 0x1000 == below;
            assert(map[i].kind == map[i].kind);
        }
    }
}

/// The direct map covers all of RAM, in whole gibibytes and no more of them than it
/// takes.
pub proof fn the_direct_map_covers_ram(highest_ram: u64)
    ensures
        gibibytes_for(highest_ram) >= 1,
        gibibytes_for(highest_ram) * 0x4000_0000 >= highest_ram,
        highest_ram > 0 ==> (gibibytes_for(highest_ram) - 1) * 0x4000_0000 < highest_ram,
{
    assert(GIB == 0x4000_0000);
}

/// Pages of a segment of the kernel can be written or executed only where the
/// segment says so.
pub proof fn kernel_pages_say_their_rights(segment: kernel_elf::Segment)
    ensures
        (flags_of(segment) & WRITABLE != 0) == segment.write,
        (flags_of(segment) & NO_EXECUTE == 0) == segment.execute,
{
    let w: u64 = if segment.write {
        WRITABLE
    } else {
        0
    };
    let x: u64 = if segment.execute {
        0
    } else {
        NO_EXECUTE
    };
    assert(((w | x) & 2 != 0) == (w == 2) && ((w | x) & 0x8000_0000_0000_0000 == 0) == (x == 0))
        by (bit_vector)
        requires
            w == 2 || w == 0,
            x == 0 || x == 0x8000_0000_0000_0000,
    ;
}

/// A module of the hand-off is the package's record, placed where the loader put
/// it.
pub proof fn a_module_is_its_record(
    directory: crate::loader::package::Directory,
    bases: Seq<u64>,
    i: int,
)
    ensures
        ({
            let made = module_record(directory, bases, i);
            let record = directory.entries@[i];
            &&& made.name == record.name
            &&& made.phys_base == bases[i]
            &&& record.length <= u64::MAX ==> made.length == record.length
            &&& made.kind == record.kind
            &&& made.flags == record.flags
        }),
{
}

/// A frame is handed out from the start only where the whole memory map calls its
/// memory usable.
pub proof fn only_usable_memory_is_handed_out(regions: Seq<MemoryRegion>, frame: int)
    requires
        forall|i: int| 0 <= i < regions.len() ==> (#[trigger] regions[i]).base % 0x1000 == 0,
    ensures
        is_usable(regions, frame) <==> exists|i: int|
            {
                let region = #[trigger] regions[i];
                &&& 0 <= i < regions.len()
                &&& region.kind == region_kind::USABLE
                &&& region.base <= frame * 0x1000
                &&& (frame + 1) * 0x1000 <= region.base + region.pages * 0x1000
            },
{
    assert forall|i: int| 0 <= i < regions.len() implies covers(#[trigger] regions[i], frame) == (
    regions[i].base <= frame * 0x1000 && (frame + 1) * 0x1000 <= regions[i].base
        + regions[i].pages * 0x1000) by {
        let b = regions[i].base as int;
        assert(b == 0x1000 * (b / 0x1000));
    }
    if is_usable(regions, frame) {
        let i = choose|i: int|
            0 <= i < regions.len() && (#[trigger] regions[i]).kind == region_kind::USABLE
                && covers(regions[i], frame);
        assert(covers(regions[i], frame));
    }
    if exists|i: int|
        {
            let region = #[trigger] regions[i];
            &&& 0 <= i < regions.len()
            &&& region.kind == region_kind::USABLE
            &&& region.base <= frame * 0x1000
            &&& (frame + 1) * 0x1000 <= region.base + region.pages * 0x1000
        } {
        let i = choose|i: int|
            {
                let region = #[trigger] regions[i];
                &&& 0 <= i < regions.len()
                &&& region.kind == region_kind::USABLE
                &&& region.base <= frame * 0x1000
                &&& (frame + 1) * 0x1000 <= region.base + region.pages * 0x1000
            };
        assert(covers(regions[i], frame));
    }
}

/// A region holds a frame and comes back when the boot is over: it held modules, or
/// the loader used it and the stack the kernel stands on lies outside it.
pub open spec fn goes_back(
    region: MemoryRegion,
    stack: int,
    stack_end: int,
    frame: int,
) -> bool {
    let end = region.base + region.pages * 0x1000;
    &&& region.base as int / 0x1000 <= frame < region.base as int / 0x1000 + region.pages
    &&& region.kind == region_kind::MODULES || region.kind == region_kind::BOOT_RECLAIMABLE && (
    end <= stack || stack_end <= region.base)
}

/// When the boot is over exactly the frames that nothing needs any more come back:
/// those that were set aside and lie in a region that goes back. No frame that is in
/// use changes hands.
pub proof fn what_the_boot_needed_comes_back(
    uses: Seq<FrameUse>,
    regions: Seq<MemoryRegion>,
    stack: int,
    stack_end: int,
    n: int,
    frame: int,
)
    requires
        0 <= n <= regions.len(),
        0 <= frame < uses.len(),
    ensures
        ({
            let after = boot_reclaimed(uses, regions, stack, stack_end, n);
            &&& after.len() == uses.len()
            &&& after[frame] == if uses[frame] == FrameUse::Reserved && (exists|i: int|
                0 <= i < n && #[trigger] goes_back(regions[i], stack, stack_end, frame)) {
                FrameUse::Free
            } else {
                uses[frame]
            }
        }),
    decreases n,
{
    if n > 0 {
        what_the_boot_needed_comes_back(uses, regions, stack, stack_end, n - 1, frame);
        let before = boot_reclaimed(uses, regions, stack, stack_end, n - 1);
        if goes_back(regions[n - 1], stack, stack_end, frame) {
            assert(goes_back(regions[n - 1], stack, stack_end, frame));
        } else if exists|i: int|
            0 <= i < n && #[trigger] goes_back(regions[i], stack, stack_end, frame) {
            let i = choose|i: int|
                0 <= i < n && #[trigger] goes_back(regions[i], stack, stack_end, frame);
            assert(i < n - 1);
        }
    }
}

/// Frames change hands as they are told to and no others do: a run is taken whole,
/// an owner gives back only what it holds, quarantine is left only by being drained,
/// and it passes from one owner to another.
pub proof fn frames_change_hands_as_told(
    uses: Seq<FrameUse>,
    base: int,
    pages: int,
    owner: Owner,
    heir: Owner,
    to: FrameUse,
    f: int,
)
    requires
        0 <= f < uses.len(),
    ensures
        run_taken(uses, base, pages, owner).len() == uses.len(),
        run_taken(uses, base, pages, owner)[f] == if base <= f < base + pages {
            FrameUse::Held(owner)
        } else {
            uses[f]
        },
        run_given_back(uses, base, pages, owner, to).len() == uses.len(),
        run_given_back(uses, base, pages, owner, to)[f] == if base <= f < base + pages && uses[f]
            == FrameUse::Held(owner) {
            to
        } else {
            uses[f]
        },
        quarantine_drained(uses).len() == uses.len(),
        uses[f] is Retired ==> quarantine_drained(uses)[f] == FrameUse::Free,
        !(uses[f] is Retired) ==> quarantine_drained(uses)[f] == uses[f],
        quarantine_moved(uses, owner, heir).len() == uses.len(),
        uses[f] == FrameUse::Retired(owner) ==> quarantine_moved(uses, owner, heir)[f]
            == FrameUse::Retired(heir),
        uses[f] != FrameUse::Retired(owner) ==> quarantine_moved(uses, owner, heir)[f] == uses[f],
        run_reclaimed(uses, base, pages).len() == uses.len(),
        run_reclaimed(uses, base, pages)[f] == if base <= f < base + pages && uses[f]
            == FrameUse::Reserved {
            FrameUse::Free
        } else {
            uses[f]
        },
{
}

/// The supervisor is the first module that is one.
pub proof fn the_first_supervisor_is_found(modules: Seq<BootModule>, from: int)
    requires
        0 <= from <= modules.len(),
    ensures
        ({
            let at = first_supervisor(modules, from);
            &&& from <= at <= modules.len()
            &&& at < modules.len() ==> modules[at].kind == module_kind::SUPERVISOR
            &&& forall|i: int|
                from <= i < at ==> (#[trigger] modules[i]).kind != module_kind::SUPERVISOR
        }),
    decreases modules.len() - from,
{
    if from < modules.len() && modules[from].kind != module_kind::SUPERVISOR {
        the_first_supervisor_is_found(modules, from + 1);
    }
}

/// A hand-off is accepted where it is of this layout and this version or an older
/// minor one, its tables are of the sizes they are read with, and it has a direct
/// map, a memory map and a stack.
pub proof fn a_handoff_is_accepted_when_it_can_be_read(info: BootInfo)
    ensures
        handoff_fault(info) is None <==> {
            &&& info.magic == BOOTINFO_MAGIC
            &&& info.version_major == crate::protocol::BOOTINFO_VERSION_MAJOR
            &&& info.version_minor <= crate::protocol::BOOTINFO_VERSION_MINOR
            &&& info.header_len >= 168
            &&& info.hhdm_base == HHDM_BASE
            &&& info.hhdm_pages > 0
            &&& info.memory_map_entry_size == 24
            &&& 0 < info.memory_map_entries <= MAX_MEMORY_REGIONS
            &&& info.modules_entry_size == 56
            &&& info.modules_count <= MAX_MODULES
            &&& info.kernel_virt_base == KERNEL_IMAGE_BASE
            &&& info.boot_stack_pages > 0
        },
{
}

/// The first scope owns everything: every free frame is its to spend, and it is
/// open and has nothing above it.
pub proof fn the_root_owns_everything(m: MachineModel)
    requires
        m.wf(),
        m.next_id < u64::MAX,
        count_use(m.uses, FrameUse::Free) <= u64::MAX,
    ensures
        ({
            let after = m.root_made();
            let root = after.scopes[0];
            &&& root.state == State::Open
            &&& root.parent is None
            &&& root.depth == 0
            &&& root.id == m.next_id
            &&& after.next_id == m.next_id + 1
            &&& root.limits.memory_pages == count_use(m.uses, FrameUse::Free)
            &&& root.limits.parallelism == MAX_THREADS
            &&& root.limits.cpu_budget_ns == CPU_WINDOW_NS
            &&& root.memory_pages == 0
            &&& root.metadata == 0
            &&& root.queue_bytes == 0
            &&& forall|k: int|
                0 < k < MAX_SCOPES ==> #[trigger] after.scopes[k] == m.scopes[k]
            &&& after.uses == m.uses
        }),
{
}

/// A boot image is sealed from the start and can never be written: it is read,
/// executed and mapped. It has just the pages its bytes take.
pub proof fn a_boot_image_is_sealed(m: MachineModel, sponsor: u16, module: BootModule)
    requires
        m.wf(),
        m.uses.len() <= crate::mm::PHYSICAL_FRAMES,
        sponsor < MAX_SCOPES,
        m.can_hold(sponsor, module.length),
    ensures
        ({
            let after = m.image_made(sponsor, module);
            let i = crate::api::memops::first_memory(m.memories, 0);
            let made = after.memories[i];
            &&& made.state == crate::memobj::State::Sealed
            &&& made.max_rights & crate::abi::right::MEMORY_WRITE == 0
            &&& made.sponsor == sponsor
            &&& made.id == m.next_id
            &&& made.map_count == 0
            &&& (made.pages - 1) * 0x1000 < module.length <= made.pages * 0x1000
        }),
{
    let i = crate::api::memops::first_memory(m.memories, 0);
    crate::laws::memory::object_is_free(m.memories, 0);
    let read = crate::abi::right::MEMORY_READ;
    let execute = crate::abi::right::MEMORY_EXECUTE;
    let map = crate::abi::right::MEMORY_MAP;
    let write = crate::abi::right::MEMORY_WRITE;
    assert((read | execute | map) & write == 0) by (bit_vector)
        requires
            read == crate::abi::right::MEMORY_READ,
            execute == crate::abi::right::MEMORY_EXECUTE,
            map == crate::abi::right::MEMORY_MAP,
            write == crate::abi::right::MEMORY_WRITE,
    ;
}

/// Thirty-two bytes hold `t` printable ones and zeros behind them.
pub open spec fn is_named(s: Seq<u8>, at: int, t: int) -> bool {
    &&& 0 < t < 32
    &&& forall|k: int| at <= k < at + t ==> 0x21 <= #[trigger] s[k] <= 0x7E
    &&& forall|k: int| at + t <= k < at + 32 ==> #[trigger] s[k] == 0
}

/// The payloads of two records share no byte.
pub open spec fn payloads_are_apart(s: Seq<u8>, i: int, j: int) -> bool {
    let a = le(s, 40 + i * 64 + 32, 8);
    let b = le(s, 40 + j * 64 + 32, 8);
    ||| a + le(s, 40 + i * 64 + 40, 8) <= b
    ||| b + le(s, 40 + j * 64 + 40, 8) <= a
}

/// A package is accepted record by record: the name is printable and padded, the
/// payload is not empty, lies in the file behind the directory and apart from those
/// before it, and its kind is one that is known.
pub proof fn a_record_is_accepted_when_it_is_sound(s: Seq<u8>, i: int)
    requires
        0 <= i,
        40 + (i + 1) * 64 <= s.len(),
    ensures
        record_fault(s, i) is None <==> {
            let at = 40 + i * 64;
            let start = le(s, at + 32, 8);
            let end = start + le(s, at + 40, 8);
            &&& exists|t: int| #[trigger] is_named(s, at, t)
            &&& start < end
            &&& end <= s.len()
            &&& 40 + le(s, 16, 4) * 64 <= start
            &&& le(s, at + 48, 4) == module_kind::USER_ELF || le(s, at + 48, 4)
                == module_kind::SUPERVISOR
            &&& forall|j: int| 0 <= j < i ==> #[trigger] payloads_are_apart(s, i, j)
        },
{
    let at = 40 + i * 64;
    let name = record_name(s, i);
    assert(record_base(i) == at);
    assert(name == s.subrange(at, at + 32));
    if good_name(name) {
        let t = choose|t: int| is_padded_name(name, t);
        assert forall|k: int| at <= k < at + t implies 0x21 <= #[trigger] s[k] <= 0x7E by {
            assert(is_graphic(name[k - at]));
        }
        assert forall|k: int| at + t <= k < at + 32 implies #[trigger] s[k] == 0 by {
            assert(name[k - at] == 0);
        }
        assert(is_named(s, at, t));
    }
    if exists|t: int| #[trigger] is_named(s, at, t) {
        let t = choose|t: int| #[trigger] is_named(s, at, t);
        assert forall|k: int| 0 <= k < t implies is_graphic(#[trigger] name[k]) by {
            assert(s[at + k] == name[k]);
        }
        assert forall|k: int| t <= k < name.len() implies #[trigger] name[k] == 0 by {
            assert(s[at + k] == name[k]);
        }
        assert(is_padded_name(name, t));
    }
    assert forall|j: int| 0 <= j < i implies #[trigger] payloads_are_apart(s, i, j)
        == !payloads_overlap(s, i, j) by {
        assert(record_base(j) == 40 + j * 64);
    }
    if exists|j: int| 0 <= j < i && payloads_overlap(s, i, j) {
        let j = choose|j: int| 0 <= j < i && payloads_overlap(s, i, j);
        assert(!payloads_are_apart(s, i, j));
    }
}

/// A header of a kernel image that asks for memory is among its segments, as it
/// says: where it goes, where its bytes are, and what may be done to it.
pub proof fn a_kernel_is_read_as_its_headers_say(image: Seq<u8>, n: int, h: int) -> (k: int)
    requires
        kernel_elf::accept_all(image, n) is Ok,
        image.len() <= usize::MAX,
        0 <= h < n,
        le(image, header_at(image, h), 4) == 1,
        le(image, header_at(image, h) + 40, 8) > 0,
    ensures
        0 <= k < kernel_elf::accept_all(image, n)->Ok_0.len(),
        ({
            let segment = kernel_elf::accept_all(image, n)->Ok_0[k];
            let at = header_at(image, h);
            let flags = le(image, at + 4, 4) as u32;
            &&& segment.vaddr == le(image, at + 16, 8)
            &&& segment.file_offset == le(image, at + 8, 8)
            &&& segment.file_len == le(image, at + 32, 8)
            &&& segment.mem_len == le(image, at + 40, 8)
            &&& segment.read == (flags & 4 != 0)
            &&& segment.write == (flags & 2 != 0)
            &&& segment.execute == (flags & 1 != 0)
            &&& !(segment.write && segment.execute)
            &&& segment.file_offset + segment.file_len <= image.len()
            &&& segment.vaddr % 0x1000 == 0
            &&& segment.vaddr >= KERNEL_IMAGE_BASE
        }),
    decreases n,
{
    if h == n - 1 {
        crate::laws::programs::headers_are_numbers(image, h);
        kernel_elf::accept_all(image, n)->Ok_0.len() - 1
    } else {
        a_kernel_is_read_as_its_headers_say(image, n - 1, h)
    }
}

} // verus!
