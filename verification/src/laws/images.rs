//! Programs: what of an image reaches the memory of its domain.

use vstd::prelude::*;

use crate::arch::x86_64::paging::leaf_bits_say_the_rights;
use crate::bytes::le;
use crate::domain::{
    created, first_thread, image_plan, is_fresh, plan_is_mapped, segment_page, segment_pages,
    user_stack_page, Created,
};
use crate::elf::{self, accept_all, accepted_image_is_sound, judge, segment_of};
use crate::elf_header::program_header;
use crate::limits::{MAX_DOMAINS, MAX_THREADS, MAX_THREADS_PER_DOMAIN};
use crate::mm::is_zero;
use crate::page_table::{target, NO_EXECUTE, USER, WRITABLE};
use crate::state::{DomainState, Machine, ThreadState};

verus! {

/// Where program header `h` of an image starts.
pub open spec fn header_at(image: Seq<u8>, h: int) -> int {
    le(image, 32, 8) + h * 56
}

/// Program header `h` asks for memory.
pub open spec fn loads_memory(image: Seq<u8>, h: int) -> bool {
    &&& 0 <= h < le(image, 56, 2)
    &&& le(image, header_at(image, h), 4) == 1
    &&& le(image, header_at(image, h) + 40, 8) > 0
}

/// The page at address `v` of a new domain is in the frame of load `k`, for the
/// domain to use, to write where `write` says so and to execute where `execute`
/// does.
pub open spec fn stands_in(
    after: Machine,
    d: int,
    made: Created,
    v: u64,
    k: int,
    write: bool,
    execute: bool,
) -> bool {
    let frame = made.loads@[k].frame.number;
    &&& 0 <= k < made.loads@.len()
    &&& after@.translated(d, v) matches Some(e) && {
        &&& target(e) == frame * 0x1000
        &&& e & USER != 0
        &&& (e & WRITABLE != 0) == write
        &&& (e & NO_EXECUTE == 0) == execute
    }
    &&& is_zero(after.frames.contents()[frame as int])
}

pub(crate) proof fn number_is_small(s: Seq<u8>, at: int)
    ensures
        le(s, at, 2) < 0x1_0000,
        le(s, at, 4) < 0x1_0000_0000,
        le(s, at, 8) < 0x1_0000_0000_0000_0000,
{
    reveal_with_fuel(le, 9);
}

/// A header that asks for memory is among the segments of an accepted image.
pub(crate) proof fn header_is_accepted(image: Seq<u8>, n: int, h: int) -> (k: int)
    requires
        accept_all(image, n) is Ok,
        0 <= h < n,
        program_header(image, h).kind == crate::elf_header::PT_LOAD,
        program_header(image, h).mem_len > 0,
    ensures
        0 <= k < accept_all(image, n)->Ok_0.len(),
        accept_all(image, n)->Ok_0[k] == segment_of(program_header(image, h)),
        program_header(image, h).offset + program_header(image, h).file_len <= image.len(),
        program_header(image, h).file_len <= program_header(image, h).mem_len,
        program_header(image, h).vaddr % 0x1000 == 0,
    decreases n,
{
    if h == n - 1 {
        accept_all(image, n)->Ok_0.len() - 1
    } else {
        header_is_accepted(image, n - 1, h)
    }
}

/// The place of a page of a segment in the plan.
proof fn page_is_planned(segments: Seq<elf::Segment>, k: int, p: int) -> (j: int)
    requires
        0 <= k < segments.len(),
        0 <= p < segments[k].page_count(),
        forall|i: int| 0 <= i < segments.len() ==> #[trigger] segments[i].page_count() >= 0,
    ensures
        0 <= j < segment_pages(segments).len(),
        segment_pages(segments)[j] == segment_page(segments[k], p),
    decreases segments.len(),
{
    let before = segments.drop_last();
    assert forall|i: int| 0 <= i < before.len() implies #[trigger] before[i].page_count() >= 0 by {
        assert(segments[i].page_count() >= 0);
    }
    if k == segments.len() - 1 {
        segment_pages(before).len() + p
    } else {
        page_is_planned(before, k, p)
    }
}

/// A program is loaded as its headers say: every byte of memory that a program
/// header asks for is the domain's to use with the header's rights. Where the file
/// has a byte for it, that byte is the one copied there: byte `i` of the memory
/// comes from byte `i` of the header's part of the file. Where the file has none,
/// the memory is zero and nothing is copied over it.
#[verifier::spinoff_prover]
#[verifier::rlimit(40)]
pub proof fn a_program_is_loaded_as_its_headers_say(
    m: Machine,
    d: int,
    name: Seq<u8>,
    image: Seq<u8>,
    scope: u16,
    managed: bool,
    creator: Option<usize>,
    after: Machine,
    made: Created,
    h: int,
    i: int,
) -> (k: int)
    requires
        created(m, d, name, image, scope, managed, creator, after, Ok(made)),
        judge(image) is Ok,
        image.len() <= usize::MAX,
        m.wf(),
        after.wf(),
        0 <= d < MAX_DOMAINS,
        loads_memory(image, h),
        0 <= i < le(image, header_at(image, h) + 40, 8),
    ensures
        ({
            let at = header_at(image, h);
            let flags = le(image, at + 4, 4) as u32;
            let v = (le(image, at + 16, 8) + i) as u64;
            let load = made.loads@[k];
            &&& stands_in(after, d, made, v, k, flags & 2 != 0, flags & 1 != 0)
            &&& i < le(image, at + 32, 8) ==> {
                &&& v as int % 0x1000 < load.len
                &&& load.offset + v as int % 0x1000 == le(image, at + 8, 8) + i
                &&& load.offset + load.len <= image.len()
            }
            &&& i >= le(image, at + 32, 8) ==> v as int % 0x1000 >= load.len
        }),
{
    let at = header_at(image, h);
    let ph = program_header(image, h);
    number_is_small(image, 32);
    number_is_small(image, 56);
    number_is_small(image, at);
    number_is_small(image, at + 4);
    number_is_small(image, at + 8);
    number_is_small(image, at + 16);
    number_is_small(image, at + 32);
    number_is_small(image, at + 40);
    accepted_image_is_sound(image);
    let segments = judge(image)->Ok_0;
    let n = crate::elf_header::file_header(image).phnum as int;
    let s = header_is_accepted(image, n, h);
    let segment = segments[s];
    let p = i / 0x1000;
    assert(segment.mem_len == ph.mem_len && segment.vaddr == ph.vaddr);
    assert(0 <= p < segment.page_count());
    let k = page_is_planned(segments, s, p);
    let plan = image_plan(segments);
    assert(plan[k] == segment_page(segment, p));
    let root = (after@.domains[d].space->0).number as int;
    assert(plan_is_mapped(after@.pages, root, plan, made.loads@, k));
    let v = (ph.vaddr + i) as u64;
    let first = plan[k].vaddr;
    assert(first == ph.vaddr + p * 0x1000);
    assert(v as int / 0x1000 == first as int / 0x1000);
    after.page_translates_alike(d, v, first);
    assert(is_fresh(
        m@.uses,
        after.frames,
        made.loads@[k].frame,
        crate::mm::Owner::Domain(d as u16),
    ));
    after.frames_are_addressable(-1);
    leaf_bits_say_the_rights(made.loads@[k].frame.address() as u64, plan[k].rights);
    assert(after@.domains[d].space is Some) by {
        space_is_there(m, d, name, image, scope, managed, creator, after, made);
    }
    k
}

proof fn space_is_there(
    m: Machine,
    d: int,
    name: Seq<u8>,
    image: Seq<u8>,
    scope: u16,
    managed: bool,
    creator: Option<usize>,
    after: Machine,
    made: Created,
)
    requires
        created(m, d, name, image, scope, managed, creator, after, Ok(made)),
        m.wf(),
        0 <= d < MAX_DOMAINS,
    ensures
        after@.domains[d].space is Some,
{
    m.wf_sized();
}

/// A new domain starts where its image says: its one thread is held until the
/// domain is activated, begins at the entry point of the file header on a stack
/// that the domain may write and not execute, and belongs to that domain. The
/// domain is under construction, of the scope that was asked for.
pub proof fn a_program_starts_where_its_header_says(
    m: Machine,
    d: int,
    name: Seq<u8>,
    image: Seq<u8>,
    scope: u16,
    managed: bool,
    creator: Option<usize>,
    after: Machine,
    made: Created,
)
    requires
        created(m, d, name, image, scope, managed, creator, after, Ok(made)),
        judge(image) is Ok,
        image.len() <= usize::MAX,
        m.wf(),
        after.wf(),
        0 <= d < MAX_DOMAINS,
    ensures
        made.index == d,
        ({
            let t = first_thread(m@.threads, 0);
            let thread = after@.threads[t];
            let domain = after@.domains[d];
            &&& 0 <= t < MAX_THREADS
            &&& m@.threads[t].state == ThreadState::Empty
            &&& thread.state == ThreadState::Held
            &&& thread.domain == d
            &&& thread.domain_generation == domain.generation
            &&& thread.owner_scope == scope
            &&& thread.entry == le(image, 24, 8)
            &&& thread.argument == 0
            &&& domain.entry == le(image, 24, 8)
            &&& domain.state == DomainState::Building
            &&& domain.owner_scope == scope
            &&& domain.managed == managed
            &&& domain.generation == m@.domains[d].generation + 1 || domain.generation == u32::MAX
            &&& domain.threads@[0] == Some(t as u16)
            &&& forall|u: int|
                0 <= u < MAX_THREADS && u != t ==> #[trigger] after@.threads[u] == m@.threads[u]
        }),
{
    m.wf_sized();
    after.wf_sized();
    number_is_small(image, 24);
    thread_is_free(m@.threads, 0);
    let t = first_thread(m@.threads, 0);
    let segments = judge(image)->Ok_0;
    crate::bytes::array_of_holds::<Option<u16>, MAX_THREADS_PER_DOMAIN>(
        m@.domain_reserved(
            d,
            name,
            elf::footprint(segments) as u64,
            scope,
            managed,
        ).domains[d].threads@.update(0, Some(t as u16)),
    );
}

/// A new program's stack ends where its thread's stack pointer starts: the word
/// below that is memory the program may write and not execute.
pub proof fn a_program_has_a_stack(
    m: Machine,
    d: int,
    name: Seq<u8>,
    image: Seq<u8>,
    scope: u16,
    managed: bool,
    creator: Option<usize>,
    after: Machine,
    made: Created,
)
    requires
        created(m, d, name, image, scope, managed, creator, after, Ok(made)),
        judge(image) is Ok,
        image.len() <= usize::MAX,
        m.wf(),
        after.wf(),
        0 <= d < MAX_DOMAINS,
    ensures
        after@.translated(d, (crate::layout::USER_STACK_TOP - 8) as u64) matches Some(e) && {
            &&& e & USER != 0
            &&& e & WRITABLE != 0
            &&& e & NO_EXECUTE != 0
        },
{
    space_is_there(m, d, name, image, scope, managed, creator, after, made);
    after.wf_sized();
    let segments = judge(image)->Ok_0;
    accepted_image_is_sound(image);
    let plan = image_plan(segments);
    let k = segment_pages(segments).len() + crate::layout::USER_STACK_PAGES - 1;
    assert(plan[k] == user_stack_page(crate::layout::USER_STACK_PAGES - 1));
    let root = (after@.domains[d].space->0).number as int;
    assert(plan_is_mapped(after@.pages, root, plan, made.loads@, k));
    assert(is_fresh(
        m@.uses,
        after.frames,
        made.loads@[k].frame,
        crate::mm::Owner::Domain(d as u16),
    ));
    after.frames_are_addressable(-1);
    leaf_bits_say_the_rights(made.loads@[k].frame.address() as u64, plan[k].rights);
    let v = (crate::layout::USER_STACK_TOP - 8) as u64;
    after.page_translates_alike(d, v, plan[k].vaddr);
}

pub(crate) proof fn thread_is_free(threads: Seq<crate::state::Thread>, from: int)
    requires
        0 <= from <= MAX_THREADS,
    ensures
        ({
            let t = first_thread(threads, from);
            &&& t <= MAX_THREADS
            &&& t < MAX_THREADS ==> from <= t && threads[t].state == ThreadState::Empty
        }),
    decreases MAX_THREADS - from,
{
    if from < MAX_THREADS && threads[from].state != ThreadState::Empty {
        thread_is_free(threads, from + 1);
    }
}

} // verus!
