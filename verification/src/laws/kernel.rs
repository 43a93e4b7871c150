//! The kernel's own address space: its segments lie where the image was loaded, and
//! memory shows through the direct map byte for byte.

use vstd::prelude::*;

use crate::arch::x86_64::paging::{
    large_page_at, leaf_bits, leaf_bits_say_the_rights, AddressSpace,
};
use crate::boot::{
    data_rights, direct_mapped, section_mapped, section_ok, section_pages, section_phys,
    small_page_at, Section,
};
use crate::laws::boot::kernel_pages_say_their_rights;
use crate::loader::elf::Image;
use crate::loader::paging::{page_at, range_entry, Tables};
use crate::loader::prepare::{flags_of, mapped, placeable, segments_mapped};
use crate::mm::{Frame, FrameAllocator};
use crate::page_table::{
    prefix_continues, same_page, target, upper_page_number, HUGE, NO_EXECUTE, PRESENT,
    UPPER_HALF, USER, WRITABLE,
};
use crate::protocol::HHDM_BASE;

verus! {

/// Every address of a segment of the kernel leads to the page at the same distance
/// from where the image was loaded as the address has from where the image is
/// linked. It can be written or executed only where the segment says so.
pub proof fn the_kernel_lies_where_it_was_loaded(
    tables: Tables,
    kernel: Image,
    phys: u64,
    k: int,
    w: u64,
)
    requires
        placeable(kernel, phys),
        segments_mapped(tables, kernel, phys, kernel.segment_count as int),
        phys + (kernel.end - kernel.base) <= 0x10_0000_0000_0000,
        0 <= k < kernel.segment_count,
        kernel.segments@[k].vaddr <= w < kernel.segments@[k].page_end(),
    ensures
        tables.translation(w) matches Some((level, e)) && {
            &&& level == 0
            &&& e & PRESENT != 0
            &&& target(e) == phys + (w - w % 0x1000 - kernel.base)
            &&& (e & WRITABLE != 0) == kernel.segments@[k].write
            &&& (e & NO_EXECUTE == 0) == kernel.segments@[k].execute
        },
{
    let segment = kernel.segments@[k];
    let i = (w - segment.vaddr) / 0x1000;
    let start = page_at(segment.vaddr, i, 0);
    let base = (phys + (segment.vaddr - kernel.base)) as u64;
    let flags = flags_of(segment);
    assert(start == w - w % 0x1000);
    assert(start >= 0xFFFF_FFFF_8000_0000);
    assert(same_page(w, start, 0)) by {
        upper_page_number(w);
        upper_page_number(start);
        assert((start - 0xFFFF_0000_0000_0000) / 0x1000 == (w - 0xFFFF_0000_0000_0000) / 0x1000);
    }
    assert(mapped(tables, segment.vaddr, base, segment.page_count(), flags, 0));
    assert(tables.translation(w) == Some((0nat, range_entry(base, i, flags, 0))));
    let a = page_at(base, i, 0);
    assert(a == phys + (start - kernel.base));
    assert(a % 0x1000 == 0);
    kernel_pages_say_their_rights(segment);
    let write: u64 = if segment.write {
        WRITABLE
    } else {
        0
    };
    let deny: u64 = if segment.execute {
        0
    } else {
        NO_EXECUTE
    };
    assert((a | flags | 1) & 0x000F_FFFF_FFFF_F000 == a && (a | flags | 1) & 1 != 0 && ((a | flags
        | 1) & 2 != 0) == (flags & 2 != 0) && ((a | flags | 1) & 0x8000_0000_0000_0000 == 0) == (
    flags & 0x8000_0000_0000_0000 == 0)) by (bit_vector)
        requires
            a % 0x1000 == 0,
            a < 0x10_0000_0000_0000,
            flags == (write | deny),
            write == 2 || write == 0,
            deny == 0x8000_0000_0000_0000 || deny == 0,
    ;
}

/// Memory shows through the direct map byte for byte: the address `p` behind its
/// base leads to the byte `p` of memory, to write and never to execute.
pub proof fn the_direct_map_shows_memory(tables: Tables, gibibytes: u64, p: u64)
    requires
        gibibytes <= 64,
        mapped(tables, HHDM_BASE, 0, gibibytes * 512, WRITABLE | NO_EXECUTE, 1),
        p < gibibytes * 0x4000_0000,
    ensures
        tables.translation((HHDM_BASE + p) as u64) matches Some((level, e)) && {
            &&& level == 1
            &&& e & PRESENT != 0
            &&& target(e) + p % 0x20_0000 == p
            &&& e & WRITABLE != 0
            &&& e & NO_EXECUTE != 0
        },
{
    let w = (HHDM_BASE + p) as u64;
    let i = p as int / 0x20_0000;
    let start = page_at(HHDM_BASE, i, 1);
    assert(start == w - p % 0x20_0000);
    assert(same_page(w, start, 1)) by {
        upper_page_number(w);
        upper_page_number(start);
        prefix_continues(w, 1);
        prefix_continues(start, 1);
        assert((start - 0xFFFF_0000_0000_0000) / 0x20_0000 == (w - 0xFFFF_0000_0000_0000)
            / 0x20_0000);
    }
    let flags = WRITABLE | NO_EXECUTE;
    assert(tables.translation(w) == Some((1nat, range_entry(0, i, flags, 1))));
    let a = page_at(0, i, 1);
    assert(a + p % 0x20_0000 == p);
    let write = WRITABLE;
    let deny = NO_EXECUTE;
    let huge = HUGE;
    let here = PRESENT;
    assert((a | flags | huge | here) & 0x000F_FFFF_FFFF_F000 == a && (a | flags | huge | here) & 1
        != 0 && (a | flags | huge | here) & 2 != 0 && (a | flags | huge | here)
        & 0x8000_0000_0000_0000 != 0) by (bit_vector)
        requires
            a % 0x1000 == 0,
            a < 0x10_0000_0000_0000,
            flags == (write | deny),
            write == 2,
            deny == 0x8000_0000_0000_0000,
            huge == 0x80,
            here == 1,
    ;
}

/// A section of the running kernel stays where the image lies: each of its addresses
/// leads to the page that is `delta` further, with the rights of the section.
pub proof fn a_section_lies_where_the_image_does(
    space: AddressSpace,
    frames: FrameAllocator,
    section: Section,
    delta: u64,
    w: u64,
)
    requires
        section_ok(section, delta),
        section_mapped(space, frames, section, delta, section_pages(section)),
        section.start % 0x1000 == 0,
        delta % 0x1000 == 0,
        section.start >= UPPER_HALF,
        section.start <= w < section.end,
    ensures
        space.translation(frames, w) matches Some((level, e)) && {
            &&& level == 0
            &&& e & PRESENT != 0
            &&& target(e) == (w - w % 0x1000 + delta) % 0x1_0000_0000_0000_0000
            &&& (e & WRITABLE != 0) == section.rights.write
            &&& (e & NO_EXECUTE == 0) == section.rights.execute
            &&& (e & USER != 0) == section.rights.user
        },
{
    let i = (w - section.start) / 0x1000;
    let start = small_page_at(section.start, i);
    assert(start == w - w % 0x1000);
    assert(same_page(w, start, 0)) by {
        upper_page_number(w);
        upper_page_number(start);
        assert((start - 0xFFFF_0000_0000_0000) / 0x1000 == (w - 0xFFFF_0000_0000_0000) / 0x1000);
    }
    let base = section_phys(section, delta);
    assert(base % 0x1000 == 0);
    let frame = Frame { number: (base / 0x1000 + i) as u64 };
    assert(frame.address() == base + i * 0x1000);
    assert(base + i * 0x1000 < 0x10_0000_0000_0000);
    leaf_bits_say_the_rights(frame.address() as u64, section.rights);
}

/// Memory shows through the running kernel's direct map byte for byte too, to write
/// and never to execute, and to no program.
pub proof fn the_running_kernel_sees_memory(
    space: AddressSpace,
    frames: FrameAllocator,
    pages: u64,
    p: u64,
)
    requires
        direct_mapped(space, frames, pages),
        pages <= 0x100_0000,
        p < pages * 0x1000,
    ensures
        space.translation(frames, (HHDM_BASE + p) as u64) matches Some((level, e)) && {
            &&& level == 1
            &&& e & PRESENT != 0
            &&& target(e) + p % 0x20_0000 == p
            &&& e & WRITABLE != 0
            &&& e & NO_EXECUTE != 0
            &&& e & USER == 0
        },
{
    let w = (HHDM_BASE + p) as u64;
    let i = p as int / 0x20_0000;
    let start = large_page_at(HHDM_BASE, i);
    assert(start == w - p % 0x20_0000);
    assert(same_page(w, start, 1)) by {
        upper_page_number(w);
        upper_page_number(start);
        prefix_continues(w, 1);
        prefix_continues(start, 1);
        assert((start - 0xFFFF_0000_0000_0000) / 0x20_0000 == (w - 0xFFFF_0000_0000_0000)
            / 0x20_0000);
    }
    let a = large_page_at(0, i);
    assert(a + p % 0x20_0000 == p);
    leaf_bits_say_the_rights(a, data_rights());
    let leaf = a | leaf_bits(data_rights());
    let huge = HUGE;
    assert((leaf | huge) & 0x000F_FFFF_FFFF_F000 == leaf & 0x000F_FFFF_FFFF_F000 && (leaf | huge)
        & 1 == leaf & 1 && (leaf | huge) & 2 == leaf & 2 && (leaf | huge) & 4 == leaf & 4 && (leaf
        | huge) & 0x8000_0000_0000_0000 == leaf & 0x8000_0000_0000_0000) by (bit_vector)
        requires
            huge == 0x80,
    ;
}

} // verus!
