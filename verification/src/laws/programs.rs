//! Program files: which of them are accepted, and what domain one makes.

use vstd::prelude::*;

use crate::bytes::{array_of_holds, le};
use crate::domain::{build_pages, created, Created};
use crate::elf::{self, accept_all, accepted_image_is_sound, footprint, judge, segment_of};
use crate::elf_header::{file_header, program_header, MAX_PROGRAM_HEADERS, PT_LOAD};
use crate::laws::images::{header_at, header_is_accepted, loads_memory, number_is_small};
use crate::laws::{counted_alike, how_many};
use crate::layout::KSTACK_PAGES;
use crate::limits::MAX_DOMAINS;
use crate::mm::{count_use, FrameUse, Owner};
use crate::state::Machine;

verus! {

/// First and one past the last address of the pages a header asks for.
pub open spec fn pages_asked(image: Seq<u8>, h: int) -> (int, int) {
    let start = le(image, header_at(image, h) + 16, 8) as int;
    let bytes = le(image, header_at(image, h) + 40, 8) as int;
    (start, start + (bytes + 0xFFF) / 0x1000 * 0x1000)
}

/// A header asks for what a program may have: bytes that are in the file and fit
/// the memory, whole pages from a page on inside a program's range, readable, and
/// never both writable and executable.
pub open spec fn may_load(image: Seq<u8>, h: int) -> bool {
    let at = header_at(image, h);
    let flags = le(image, at + 4, 4) as u32;
    &&& le(image, at + 32, 8) <= le(image, at + 40, 8)
    &&& le(image, at + 8, 8) + le(image, at + 32, 8) <= image.len()
    &&& le(image, at + 16, 8) % 0x1000 == 0
    &&& 0x1000 <= le(image, at + 16, 8)
    &&& le(image, at + 16, 8) + le(image, at + 40, 8) <= 0x8000_0000_0000
    &&& flags & 4 != 0
    &&& !(flags & 2 != 0 && flags & 1 != 0)
}

/// The pages of two headers are apart.
pub open spec fn apart(image: Seq<u8>, g: int, h: int) -> bool {
    let (a, b) = pages_asked(image, g);
    let (c, d) = pages_asked(image, h);
    b <= c || d <= a
}

/// Headers among the first `n` that are of the kind that asks for memory.
pub open spec fn loads(image: Seq<u8>, n: int) -> int
    decreases n,
{
    if n <= 0 {
        0
    } else {
        loads(image, n - 1) + if le(image, header_at(image, n - 1), 4) == 1 {
            1int
        } else {
            0
        }
    }
}

/// Pages that the first `n` headers ask for.
pub open spec fn pages_loaded(image: Seq<u8>, n: int) -> int
    decreases n,
{
    if n <= 0 {
        0
    } else {
        pages_loaded(image, n - 1) + if le(image, header_at(image, n - 1), 4) == 1 {
            (le(image, header_at(image, n - 1) + 40, 8) + 0xFFF) / 0x1000
        } else {
            0
        }
    }
}

/// The file is an executable for this machine whose program headers lie in it.
pub open spec fn is_program(image: Seq<u8>) -> bool {
    &&& 64 <= image.len() <= elf::MAX_IMAGE_BYTES
    &&& image[0] == 0x7F && image[1] == 0x45 && image[2] == 0x4C && image[3] == 0x46
    &&& image[4] == 2 && image[5] == 1 && image[6] == 1
    &&& le(image, 16, 2) == 2
    &&& le(image, 18, 2) == 62
    &&& le(image, 54, 2) == 56
    &&& 0 < le(image, 56, 2) <= MAX_PROGRAM_HEADERS
    &&& header_at(image, le(image, 56, 2) as int) <= image.len()
}

/// A segment is what a header that asks for memory says.
spec fn comes_from(image: Seq<u8>, h: int, segment: elf::Segment) -> bool {
    let ph = program_header(image, h);
    &&& segment == segment_of(ph)
    &&& ph.kind == PT_LOAD
    &&& ph.mem_len > 0
    &&& elf::segment_fault(ph, image.len() as int) is None
}

/// A segment is what one of the first `n` headers says.
spec fn has_header(image: Seq<u8>, n: int, segment: elf::Segment) -> bool {
    exists|h: int| 0 <= h < n && #[trigger] comes_from(image, h, segment)
}

/// The segments among the first `n` headers, and the headers they come from.
proof fn segments_are_headers(image: Seq<u8>, n: int, g: int)
    requires
        accept_all(image, n) is Ok,
        0 <= n,
        image.len() <= usize::MAX,
    ensures
        forall|k: int|
            0 <= k < accept_all(image, n)->Ok_0.len() ==> has_header(
                image,
                n,
                #[trigger] accept_all(image, n)->Ok_0[k],
            ),
        forall|h: int|
            0 <= g < h < n && program_header(image, g).kind == PT_LOAD
                && program_header(image, g).mem_len > 0 && (#[trigger] program_header(
                image,
                h,
            )).kind == PT_LOAD && program_header(image, h).mem_len > 0
                ==> !segment_of(program_header(image, h)).meets(
                segment_of(program_header(image, g)),
            ),
    decreases n,
{
    if n > 0 {
        segments_are_headers(image, n - 1, g);
        let before = accept_all(image, n - 1)->Ok_0;
        let after = accept_all(image, n)->Ok_0;
        let ph = program_header(image, n - 1);
        assert forall|k: int| 0 <= k < after.len() implies has_header(
            image,
            n,
            #[trigger] after[k],
        ) by {
            if k < before.len() {
                assert(before[k] == after[k]);
                assert(has_header(image, n - 1, before[k]));
                let h = choose|h: int|
                    0 <= h < n - 1 && #[trigger] comes_from(image, h, before[k]);
                assert(comes_from(image, h, after[k]));
            } else {
                assert(comes_from(image, n - 1, after[k]));
            }
        }
        if 0 <= g < n - 1 && program_header(image, g).kind == PT_LOAD
            && program_header(image, g).mem_len > 0 && ph.kind == PT_LOAD
            && ph.mem_len > 0 {
            let k = header_is_accepted(image, n - 1, g);
            assert(before[k] == segment_of(program_header(image, g)));
        }
    }
}

/// An accepted program asks for nothing it may not have: it is an executable for
/// this machine, every header that asks for memory is sound, no two of them share a
/// page, and its entry point lies in memory that it may execute.
pub proof fn an_accepted_program_is_sound(image: Seq<u8>, g: int, h: int)
    requires
        judge(image) is Ok,
        image.len() <= usize::MAX,
        loads_memory(image, g),
        loads_memory(image, h),
        g < h,
    ensures
        is_program(image),
        may_load(image, g),
        may_load(image, h),
        apart(image, g, h),
        exists|e: int|
            {
                let start = le(image, header_at(image, e) + 16, 8);
                &&& #[trigger] loads_memory(image, e)
                &&& le(image, header_at(image, e) + 4, 4) as u32 & 1 != 0
                &&& start <= le(image, 24, 8) < start + le(image, header_at(image, e) + 40, 8)
            },
{
    header_numbers(image);
    let n = le(image, 56, 2) as int;
    headers_are_numbers(image, g);
    headers_are_numbers(image, h);
    segments_are_headers(image, n, g);
    let kg = header_is_accepted(image, n, g);
    let kh = header_is_accepted(image, n, h);
    let segments = judge(image)->Ok_0;
    accepted_image_is_sound(image);
    assert(elf::segments_are_sound(segments, image.len() as int));
    assert(segments[kg] == segment_of(program_header(image, g)));
    assert(segments[kh] == segment_of(program_header(image, h)));
    let entry = le(image, 24, 8) as int;
    let x = choose|x: int|
        0 <= x < segments.len() && #[trigger] segments[x].execute && segments[x].holds(entry);
    assert(has_header(image, n, segments[x]));
    let e = choose|e: int| 0 <= e < n && #[trigger] comes_from(image, e, segments[x]);
    headers_are_numbers(image, e);
    assert(loads_memory(image, e));
}

proof fn header_numbers(image: Seq<u8>)
    ensures
        file_header(image).phnum == le(image, 56, 2),
        file_header(image).phentsize == le(image, 54, 2),
        file_header(image).phoff == le(image, 32, 8),
        file_header(image).entry == le(image, 24, 8),
        file_header(image).object_type == le(image, 16, 2),
        file_header(image).machine == le(image, 18, 2),
{
    number_is_small(image, 56);
    number_is_small(image, 54);
    number_is_small(image, 32);
    number_is_small(image, 24);
    number_is_small(image, 16);
    number_is_small(image, 18);
}

pub(crate) proof fn headers_are_numbers(image: Seq<u8>, h: int)
    ensures
        ({
            let ph = program_header(image, h);
            let at = header_at(image, h);
            &&& ph.kind == le(image, at, 4)
            &&& ph.flags == le(image, at + 4, 4)
            &&& ph.offset == le(image, at + 8, 8)
            &&& ph.vaddr == le(image, at + 16, 8)
            &&& ph.file_len == le(image, at + 32, 8)
            &&& ph.mem_len == le(image, at + 40, 8)
        }),
{
    let at = header_at(image, h);
    header_numbers(image);
    number_is_small(image, at);
    number_is_small(image, at + 4);
    number_is_small(image, at + 8);
    number_is_small(image, at + 16);
    number_is_small(image, at + 32);
    number_is_small(image, at + 40);
}

proof fn sound_headers_are_accepted(image: Seq<u8>, n: int)
    requires
        0 <= n <= le(image, 56, 2),
        image.len() <= usize::MAX,
        loads(image, n) <= elf::MAX_SEGMENTS,
        pages_loaded(image, n) <= elf::MAX_IMAGE_PAGES,
        forall|h: int| 0 <= h < n && loads_memory(image, h) ==> #[trigger] may_load(image, h),
        forall|g: int, h: int|
            0 <= g < h < n && loads_memory(image, g) && loads_memory(image, h)
                ==> #[trigger] apart(image, g, h),
    ensures
        accept_all(image, n) is Ok,
        accept_all(image, n)->Ok_0.len() <= loads(image, n),
        elf::footprint(accept_all(image, n)->Ok_0) == pages_loaded(image, n),
        0 <= loads(image, n),
        0 <= pages_loaded(image, n),
    decreases n,
{
    if n > 0 {
        let h = n - 1;
        headers_are_numbers(image, h);
        loads_grow(image, n - 1);
        sound_headers_are_accepted(image, n - 1);
        segments_are_headers(image, n - 1, 0);
        let before = accept_all(image, n - 1)->Ok_0;
        let ph = program_header(image, h);
        if ph.kind == PT_LOAD && ph.mem_len > 0 {
            assert(loads_memory(image, h));
            assert(may_load(image, h));
            assert(elf::segment_fault(ph, image.len() as int) is None);
            let segment = segment_of(ph);
            assert forall|k: int| 0 <= k < before.len() implies !segment.meets(
                #[trigger] before[k],
            ) by {
                assert(has_header(image, n - 1, before[k]));
                let g = choose|g: int|
                    0 <= g < n - 1 && #[trigger] comes_from(image, g, before[k]);
                headers_are_numbers(image, g);
                assert(loads_memory(image, g));
                assert(apart(image, g, h));
            }
            assert(before.push(segment).drop_last() =~= before);
        }
    }
}

proof fn loads_grow(image: Seq<u8>, n: int)
    requires
        0 <= n,
    ensures
        0 <= loads(image, n) <= loads(image, n + 1),
        0 <= pages_loaded(image, n) <= pages_loaded(image, n + 1),
    decreases n,
{
    if n > 0 {
        loads_grow(image, n - 1);
    }
}

/// A program that asks for nothing it may not have is accepted.
pub proof fn a_sound_program_is_accepted(image: Seq<u8>, e: int)
    requires
        is_program(image),
        loads(image, le(image, 56, 2) as int) <= elf::MAX_SEGMENTS,
        pages_loaded(image, le(image, 56, 2) as int) <= elf::MAX_IMAGE_PAGES,
        forall|h: int| loads_memory(image, h) ==> #[trigger] may_load(image, h),
        forall|g: int, h: int|
            g < h && loads_memory(image, g) && loads_memory(image, h) ==> #[trigger] apart(
                image,
                g,
                h,
            ),
        loads_memory(image, e),
        le(image, header_at(image, e) + 4, 4) as u32 & 1 != 0,
        le(image, header_at(image, e) + 16, 8) <= le(image, 24, 8) < le(
            image,
            header_at(image, e) + 16,
            8,
        ) + le(image, header_at(image, e) + 40, 8),
    ensures
        judge(image) is Ok,
{
    header_numbers(image);
    headers_are_numbers(image, e);
    let n = le(image, 56, 2) as int;
    assert(image.len() <= usize::MAX);
    sound_headers_are_accepted(image, n);
    let k = header_is_accepted(image, n, e);
    let segments = accept_all(image, n)->Ok_0;
    assert(segments[k].execute && segments[k].holds(le(image, 24, 8) as int));
}

/// A new domain carries the name it was given, is known under the next identifier,
/// and is charged for what it holds: the frames of its image, of its stack and of its
/// tables, and its kernel stack. No other domain changes.
pub proof fn a_new_domain_is_what_was_asked_for(
    m: Machine,
    d: int,
    name: Seq<u8>,
    image: Seq<u8>,
    scope: u16,
    managed: bool,
    creator: Option<usize>,
    after: Machine,
    made: Created,
)
    requires
        created(m, d, name, image, scope, managed, creator, after, Ok(made)),
        judge(image) is Ok,
        m.wf(),
        after.wf(),
        0 <= d < MAX_DOMAINS,
    ensures
        after@.domains[d].id == m@.next_id,
        after@.domains[d].space is Some,
        after@.domains[d].name_len == name.len() || name.len() > 32 && after@.domains[d].name_len
            == 32,
        forall|i: int|
            0 <= i < 32 && i < name.len() ==> #[trigger] after@.domains[d].name@[i] == name[i],
        ({
            let charged = after@.domains[d].reserved_pages;
            let held = how_many(
                |f: int|
                    after@.uses[f] == FrameUse::Held(Owner::Domain(d as u16)) || after@.uses[f]
                        == FrameUse::Table(Owner::Domain(d as u16)),
                after@.uses.len() as int,
            );
            &&& charged <= held + KSTACK_PAGES
            &&& charged < held + KSTACK_PAGES ==> charged == build_pages(
                footprint(judge(image)->Ok_0) as u64,
            )
        }),
        forall|e: int|
            0 <= e < MAX_DOMAINS && e != d ==> #[trigger] after@.domains[e] == m@.domains[e],
{
    m.wf_sized();
    after.wf_sized();
    array_of_holds::<u8, 32>(
        Seq::new(
            32,
            |i: int|
                if i < name.len() {
                    name[i]
                } else {
                    0
                },
        ),
    );
    after.frames_are_addressable(-1);
    held_and_tables(after@.uses, Owner::Domain(d as u16));
    let owner = Owner::Domain(d as u16);
    counted_alike(
        |f: int| after@.uses[f] == FrameUse::Held(owner) || after@.uses[f] == FrameUse::Table(owner),
        |f: int|
            after@.uses[f] == FrameUse::Held(Owner::Domain(d as u16)) || after@.uses[f]
                == FrameUse::Table(Owner::Domain(d as u16)),
        after@.uses.len() as int,
    );
}

proof fn held_and_tables(uses: Seq<FrameUse>, owner: Owner)
    ensures
        count_use(uses, FrameUse::Held(owner)) + count_use(uses, FrameUse::Table(owner))
            == how_many(
            |f: int| uses[f] == FrameUse::Held(owner) || uses[f] == FrameUse::Table(owner),
            uses.len() as int,
        ),
        count_use(uses, FrameUse::Held(owner)) + count_use(uses, FrameUse::Table(owner))
            <= uses.len(),
    decreases uses.len(),
{
    if uses.len() > 0 {
        let less = uses.drop_last();
        held_and_tables(less, owner);
        counted_alike(
            |f: int| less[f] == FrameUse::Held(owner) || less[f] == FrameUse::Table(owner),
            |f: int| uses[f] == FrameUse::Held(owner) || uses[f] == FrameUse::Table(owner),
            less.len() as int,
        );
    }
}

} // verus!
