//! Memory objects, their mappings and their bytes.

use vstd::prelude::*;

use crate::abi::request::{MapRequest, MemoryCopyRequest, MemoryCreateRequest, UnmapRequest};
use crate::abi::status::Status;
use crate::abi::{object_type, right};
use crate::api::memops::{copied, dropping_frees_one, platform_rights, Sealing};
use crate::api::{ctx_ok, Ctx, Resolved};
use crate::arch::x86_64::paging::leaf_bits_say_the_rights;
use crate::laws::authority::{a_handle_permits_what_its_entry_says, names_entry};
use crate::laws::{counted_alike, how_many};
use crate::limits::{MAX_DOMAINS, MAX_MAPS, MAX_MEMORY_OBJECTS};
use crate::memobj::{MapRecord, MemoryObject, State as MemState};
use crate::mm::{Frame, FrameUse, Owner, Rights, PHYSICAL_FRAMES};
use crate::obj::{CapEntry, ObjKind};
use crate::page_table::{same_page, target, NO_EXECUTE, USER, WRITABLE};
use crate::spaces::{low_pages_are_numbered, page_at, run_entry, with_run, USER_END};
use crate::state::{Machine, MachineModel};

verus! {

pub(crate) proof fn run_is_in_order(
    pages: Map<(int, u64), (nat, u64)>,
    root: int,
    vaddr: u64,
    base: Frame,
    rights: Rights,
    n: nat,
    w: u64,
)
    requires
        vaddr % 0x1000 == 0,
        vaddr + n * 0x1000 <= USER_END,
        w < USER_END,
    ensures
        ({
            let after = with_run(pages, root, vaddr, base, rights, n);
            if vaddr <= w < vaddr + n * 0x1000 {
                &&& after.contains_key((root, w))
                &&& after[(root, w)] == (0nat, run_entry(base, (w - vaddr) / 0x1000, rights))
            } else {
                &&& after.contains_key((root, w)) == pages.contains_key((root, w))
                &&& pages.contains_key((root, w)) ==> after[(root, w)] == pages[(root, w)]
            }
        }),
    decreases n,
{
    if n > 0 {
        run_is_in_order(pages, root, vaddr, base, rights, (n - 1) as nat, w);
        low_pages_are_numbered(w, page_at(vaddr, n - 1));
    }
}

/// A mapping shows the object from the page the request asked for: address after
/// address the domain reaches the frames of the object that the request's handle
/// names, starting with frame `offset_pages` of it, with the rights the request
/// asked for and no other. Every other address of the domain translates as before.
pub proof fn a_mapping_shows_the_object_from_its_offset(
    m: MachineModel,
    ctx: Ctx,
    request: MapRequest,
    w: u64,
)
    requires
        m.wf(),
        ctx_ok(ctx, ObjKind::Domain),
        m.map_fault(ctx, request) is None,
        m.domains[ctx.cap.object.index as int].space is Some,
        w < USER_END,
    ensures
        exists|entry: CapEntry|
            {
                let d = ctx.cap.object.index as int;
                let o = entry.object.index as int;
                let after = m.map_made(ctx, request);
                let p = (w - request.vaddr) / 0x1000;
                &&& #[trigger] names_entry(
                    m,
                    ctx.domain as int,
                    request.memory_handle,
                    object_type::MEMORY,
                    right::MEMORY_MAP,
                    ctx.now,
                    entry,
                )
                &&& request.offset_pages + request.page_count <= m.memories[o].pages
                &&& request.rights & m.grants[entry.grant as int].rights == request.rights
                &&& request.rights & m.memories[o].max_rights == request.rights
                &&& if request.vaddr <= w < request.vaddr + request.page_count * 0x1000 {
                    &&& after.translated(d, w) matches Some(e) && {
                        &&& target(e) == (m.memories[o].base.number + request.offset_pages + p)
                            * 0x1000
                        &&& e & USER != 0
                        &&& (e & WRITABLE != 0) == (request.rights & right::MEMORY_WRITE != 0)
                        &&& (e & NO_EXECUTE == 0) == (request.rights & right::MEMORY_EXECUTE != 0)
                    }
                } else {
                    after.translated(d, w) == m.translated(d, w)
                }
                &&& request.rights & right::MEMORY_WRITE != 0 ==> m.memories[o].state
                    == MemState::Mutable && request.rights & right::MEMORY_EXECUTE == 0
            },
{
    let d = ctx.cap.object.index as int;
    let after = m.map_made(ctx, request);
    let memory = m.map_source(ctx, request)->Ok_0;
    a_handle_permits_what_its_entry_says(
        m,
        ctx.domain as int,
        request.memory_handle,
        object_type::MEMORY,
        right::MEMORY_MAP,
        ctx.now,
    );
    let entry = choose|entry: CapEntry|
        {
            &&& #[trigger] names_entry(
                m,
                ctx.domain as int,
                request.memory_handle,
                object_type::MEMORY,
                right::MEMORY_MAP,
                ctx.now,
                entry,
            )
            &&& memory.object == entry.object
            &&& memory.grant == entry.grant
            &&& memory.rights == m.grants[entry.grant as int].rights
        };
    let o = entry.object.index as int;
    let base = m.map_base(ctx, request);
    let rights = platform_rights(request.rights)->Ok_0;
    assert(crate::state::memory_ok(m.memories[o]));
    run_is_in_order(
        m.pages,
        m.root_of(d),
        request.vaddr,
        base,
        rights,
        request.page_count as nat,
        w,
    );
    subset_of(request.rights, memory.rights);
    subset_of(request.rights, m.memories[o].max_rights);
    assert(after.pages == with_run(
        m.pages,
        m.root_of(d),
        request.vaddr,
        base,
        rights,
        request.page_count as nat,
    ));
    assert(after.root_of(d) == m.root_of(d) && after.domains[d].space is Some);
    if request.vaddr <= w < request.vaddr + request.page_count * 0x1000 {
        let p = (w - request.vaddr) / 0x1000;
        assert(0 <= p < request.page_count);
        leaf_bits_say_the_rights(((base.number + p) * 0x1000) as u64, rights);
    }
}

proof fn subset_of(a: u32, b: u32)
    by (bit_vector)
    ensures
        a & !b == 0 ==> a & b == a,
{
}

/// The record of a mapping is of the request, and the object counts it, as a
/// writer where it is one.
pub proof fn a_mapping_is_counted(m: MachineModel, ctx: Ctx, request: MapRequest)
    requires
        m.wf(),
        ctx_ok(ctx, ObjKind::Domain),
        m.map_fault(ctx, request) is None,
    ensures
        ({
            let after = m.map_made(ctx, request);
            let d = ctx.cap.object.index as int;
            let o = m.map_source(ctx, request)->Ok_0.object.index as int;
            let object = m.memories[o];
            exists|k: int|
                {
                    &&& 0 <= k < MAX_MAPS
                    &&& !m.maps[k].used
                    &&& (#[trigger] after.maps[k]).used
                    &&& after.maps[k].memory == o
                    &&& after.maps[k].memory_generation == object.generation
                    &&& after.maps[k].domain == d
                    &&& after.maps[k].domain_generation == m.domains[d].generation
                    &&& after.maps[k].vaddr == request.vaddr
                    &&& after.maps[k].pages == request.page_count
                    &&& after.maps[k].offset_pages == request.offset_pages
                    &&& after.maps[k].rights == request.rights
                    &&& after.maps == m.maps.update(k, after.maps[k])
                    &&& object.map_count < u32::MAX ==> after.memories[o].map_count
                        == object.map_count + 1
                    &&& object.writable_maps < u32::MAX ==> after.memories[o].writable_maps
                        == object.writable_maps + if request.rights & right::MEMORY_WRITE != 0 {
                        1int
                    } else {
                        0int
                    }
                    &&& after.memories == m.memories.update(o, after.memories[o])
                    &&& after.memories[o] == (MemoryObject {
                        map_count: after.memories[o].map_count,
                        writable_maps: after.memories[o].writable_maps,
                        ..object
                    })
                }
        }),
{
    let after = m.map_made(ctx, request);
    let k = crate::api::domainops::first_map(m.maps, 0);
    place_is_free(m.maps, 0);
    a_handle_permits_what_its_entry_says(
        m,
        ctx.domain as int,
        request.memory_handle,
        object_type::MEMORY,
        right::MEMORY_MAP,
        ctx.now,
    );
    let o = m.map_source(ctx, request)->Ok_0.object.index as int;
    assert(after.maps[k].used);
    assert(after.maps =~= m.maps.update(k, after.maps[k]));
    assert(after.memories =~= m.memories.update(o, after.memories[o]));
}

proof fn place_is_free(maps: Seq<MapRecord>, from: int)
    requires
        0 <= from,
    ensures
        ({
            let k = crate::api::domainops::first_map(maps, from);
            &&& k <= MAX_MAPS
            &&& k < MAX_MAPS ==> from <= k && !maps[k].used
        }),
    decreases MAX_MAPS - from,
{
    if from < MAX_MAPS && maps[from].used {
        place_is_free(maps, from + 1);
    }
}

/// Bytes are copied one for one: byte `i` of the range is byte `i` of the source's
/// range, and every byte outside the range is what it was.
pub proof fn bytes_are_copied_in_order(
    source: Seq<u8>,
    from: int,
    target: Seq<u8>,
    to: int,
    length: int,
    i: int,
)
    requires
        0 <= from,
        0 <= to,
        0 <= length,
        from + length <= source.len(),
        to + length <= target.len(),
        0 <= i < target.len(),
    ensures
        copied(source, from, target, to, length).len() == target.len(),
        to <= i < to + length ==> copied(source, from, target, to, length)[i] == source[from + (i
            - to)],
        !(to <= i < to + length) ==> copied(source, from, target, to, length)[i] == target[i],
{
}

pub(crate) proof fn run_is_cut(m: MachineModel, root: int, vaddr: u64, n: nat, w: u64)
    requires
        vaddr % 0x1000 == 0,
        vaddr + n * 0x1000 <= USER_END,
        w < USER_END,
        forall|v: u64, u: u64|
            v < USER_END && u < USER_END && same_page(v, u, 0) ==> #[trigger] m.pages.contains_key(
                (root, v),
            ) == #[trigger] m.pages.contains_key((root, u)),
        forall|v: u64| #[trigger] m.pages.contains_key((root, v)) ==> m.pages[(root, v)].0 == 0,
    ensures
        ({
            let after = m.unmap_pages(root, vaddr, n).0;
            &&& after == (MachineModel { pages: after.pages, ..m })
            &&& if vaddr <= w < vaddr + n * 0x1000 {
                !after.pages.contains_key((root, w))
            } else {
                &&& after.pages.contains_key((root, w)) == m.pages.contains_key((root, w))
                &&& m.pages.contains_key((root, w)) ==> after.pages[(root, w)] == m.pages[(root, w)]
            }
        }),
    decreases n,
{
    if n > 0 {
        run_is_cut(m, root, vaddr, (n - 1) as nat, w);
        let v = page_at(vaddr, n - 1);
        run_is_cut(m, root, vaddr, (n - 1) as nat, v);
        low_pages_are_numbered(w, v);
        let before = m.unmap_pages(root, vaddr, (n - 1) as nat).0;
        assert(before.is_mapped(root, v) == m.pages.contains_key((root, v)));
        if same_page(w, v, 0) {
            assert(m.pages.contains_key((root, w)) == m.pages.contains_key((root, v)));
        }
    }
}

/// Taking a mapping back takes back that mapping: no address of its range reaches
/// anything any more, every other address of the domain translates as before, its
/// record is free, and every other record is as it was.
pub proof fn unmapping_takes_back_what_was_mapped(m: Machine, i: int, cpu: int, w: u64)
    requires
        m.wf(),
        0 <= i < MAX_MAPS,
        m@.maps[i].used,
        m@.domains[m@.maps[i].domain as int].space is Some,
        w < USER_END,
    ensures
        ({
            let after = m@.map_dropped(i, cpu).0;
            let record = m@.maps[i];
            let d = record.domain as int;
            &&& after.translated(d, w) == if record.vaddr <= w < record.vaddr + record.pages
                * 0x1000 {
                None
            } else {
                m@.translated(d, w)
            }
            &&& !after.maps[i].used
            &&& forall|k: int|
                0 <= k < MAX_MAPS && k != i ==> #[trigger] after.maps[k] == m@.maps[k]
        }),
{
    m.wf_sized();
    let record = m@.maps[i];
    let d = record.domain as int;
    let root = m@.root_of(d);
    assert(crate::state::map_ok(m@.maps[i])) by {
        reveal(Machine::wf_but);
    }
    assert forall|v: u64, u: u64| v < USER_END && u < USER_END && same_page(v, u, 0) implies
        #[trigger] m@.pages.contains_key((root, v)) == #[trigger] m@.pages.contains_key((root, u)) by {
        low_pages_are_numbered(v, u);
        m.page_translates_alike(d, v, u);
    }
    assert forall|v: u64| #[trigger] m@.pages.contains_key((root, v)) implies
        m@.pages[(root, v)].0 == 0 by {
        m.wf_stands();
        reveal(crate::backing::Backing::stands);
        assert(m@.backing().has_page(d, v));
        assert(m@.backing().page_stands(d, v));
    }
    run_is_cut(m@, root, record.vaddr, record.pages as nat, w);
    dropping_frees_one(m@, i, cpu);
    dropping_keeps_the_rest(m@, i, cpu);
}

proof fn collecting_keeps_pages(m: MachineModel, g: u16, steps: nat)
    ensures
        m.collect_grant(g, steps).pages == m.pages,
    decreases steps,
{
    if steps > 0 && g != crate::obj::NO_GRANT && m.is_idle_grant(g as int) {
        collecting_keeps_pages(
            m.free_grant(g as int),
            m.grants[g as int].parent,
            (steps - 1) as nat,
        );
    }
}

proof fn dropping_keeps_the_rest(m: MachineModel, i: int, cpu: int)
    requires
        m.maps[i].used,
    ensures
        m.map_dropped(i, cpu).0.pages == m.map_cleared(i).0.pages,
{
    assert forall|x: MachineModel, g: u16| (#[trigger] x.collect_grant(
        g,
        crate::limits::MAX_DERIVE_DEPTH as nat,
    )).pages == x.pages by {
        collecting_keeps_pages(x, g, crate::limits::MAX_DERIVE_DEPTH as nat);
    }
}

/// What an unmapping names is a mapping of that domain with that start and that
/// length, and one that is refused for want of a mapping names none.
pub proof fn an_unmapping_names_a_mapping(m: MachineModel, d: int, request: UnmapRequest, from: int)
    requires
        0 <= from <= MAX_MAPS,
    ensures
        ({
            let i = m.named_map(from, d, request);
            &&& from <= i <= MAX_MAPS
            &&& i < MAX_MAPS ==> {
                &&& m.maps[i].used
                &&& m.maps[i].domain == d
                &&& m.maps[i].domain_generation == m.domains[d].generation
                &&& m.maps[i].vaddr == request.vaddr
                &&& m.maps[i].pages == request.page_count
            }
            &&& i == MAX_MAPS ==> forall|k: int|
                from <= k < MAX_MAPS ==> !((#[trigger] m.maps[k]).used && m.maps[k].domain == d
                    && m.maps[k].domain_generation == m.domains[d].generation
                    && m.maps[k].vaddr == request.vaddr && m.maps[k].pages
                    == request.page_count)
        }),
    decreases MAX_MAPS - from,
{
    if from < MAX_MAPS && !m.is_named_map(from, d, request) {
        an_unmapping_names_a_mapping(m, d, request, from + 1);
    }
}

/// A new memory object is what was asked for: so many frames in a row that nobody
/// used, now its sponsor's and no other's, open for writing, with the ceiling of
/// rights asked for. No other frame changes hands and no other object changes.
pub proof fn a_new_object_is_what_was_asked_for(
    m: MachineModel,
    ctx: Ctx,
    request: MemoryCreateRequest,
)
    requires
        m.wf(),
        m.uses.len() <= PHYSICAL_FRAMES,
        ctx_ok(ctx, ObjKind::Scope),
        m.memory_fault(ctx, request) is None,
    ensures
        ({
            let after = m.memory_created(ctx, request);
            exists|i: int|
                {
                    let made = #[trigger] after.memories[i];
                    let base = made.base.number as int;
                    &&& 0 <= i < MAX_MEMORY_OBJECTS
                    &&& m.memories[i].state == MemState::Empty
                    &&& made.state == MemState::Mutable
                    &&& made.id == m.next_id
                    &&& made.pages == request.pages
                    &&& made.max_rights == request.max_rights
                    &&& made.sponsor == ctx.cap.object.index
                    &&& made.label == request.label
                    &&& made.map_count == 0
                    &&& made.writable_maps == 0
                    &&& made.dma_grants == 0
                    &&& base + request.pages <= m.uses.len()
                    &&& after.uses.len() == m.uses.len()
                    &&& forall|f: int|
                        base <= f < base + request.pages ==> m.uses[f] == FrameUse::Free
                            && #[trigger] after.uses[f] == FrameUse::Held(
                            Owner::Scope(ctx.cap.object.index),
                        )
                    &&& forall|f: int|
                        0 <= f < m.uses.len() && !(base <= f < base + request.pages)
                            ==> #[trigger] after.uses[f] == m.uses[f]
                    &&& forall|k: int|
                        0 <= k < MAX_MEMORY_OBJECTS && k != i ==> #[trigger] after.memories[k]
                            == m.memories[k]
                }
        }),
{
    let i = crate::api::memops::first_memory(m.memories, 0);
    object_is_free(m.memories, 0);
    let pages = request.pages as int;
    let b = choose|b: int| crate::mm::is_free_run(m.uses, b, pages);
    some_run_is_first(m.uses, b, pages);
    let base = crate::mm::first_run(m.uses, pages);
    let after = m.memory_created(ctx, request);
    assert(after.memories[i].state == MemState::Mutable);
}

proof fn some_run_is_first(uses: Seq<FrameUse>, b: int, pages: int)
    requires
        crate::mm::is_free_run(uses, b, pages),
    ensures
        crate::mm::is_first_run(uses, crate::mm::first_run(uses, pages), pages),
    decreases b,
{
    if exists|c: int| 0 <= c < b && #[trigger] crate::mm::is_free_run(uses, c, pages) {
        let c = choose|c: int| 0 <= c < b && #[trigger] crate::mm::is_free_run(uses, c, pages);
        some_run_is_first(uses, c, pages);
    } else {
        assert(crate::mm::is_first_run(uses, b, pages));
    }
}

pub(crate) proof fn object_is_free(memories: Seq<MemoryObject>, from: int)
    requires
        0 <= from <= MAX_MEMORY_OBJECTS,
    ensures
        ({
            let i = crate::api::memops::first_memory(memories, from);
            &&& from <= i <= MAX_MEMORY_OBJECTS
            &&& i < MAX_MEMORY_OBJECTS ==> memories[i].state == MemState::Empty
        }),
    decreases MAX_MEMORY_OBJECTS - from,
{
    if from < MAX_MEMORY_OBJECTS && memories[from].state != MemState::Empty {
        object_is_free(memories, from + 1);
    }
}

/// An object that anything can still reach is not collected: no handle, mapping or
/// device reaches one that is. What is collected was its sponsor's and goes back,
/// its own frames and no others.
pub proof fn only_what_nothing_reaches_is_collected(m: MachineModel, i: int, acknowledged: bool)
    requires
        m.wf(),
        0 <= i < MAX_MEMORY_OBJECTS,
    ensures
        ({
            let object = m.memories[i];
            let after = m.collect_memory(i, acknowledged);
            let base = object.base.number as int;
            &&& object.refs != 0 || object.map_count != 0 || object.dma_grants != 0 ==> after == m
            &&& after.memories[i] == object || after.memories[i].state == MemState::Empty
            &&& forall|k: int|
                0 <= k < MAX_MEMORY_OBJECTS && k != i ==> #[trigger] after.memories[k]
                    == m.memories[k]
            &&& forall|f: int|
                0 <= f < m.uses.len() && (!(base <= f < base + object.pages) || m.uses[f]
                    != FrameUse::Held(Owner::Scope(object.sponsor))) ==> #[trigger] after.uses[f]
                    == m.uses[f]
            &&& after.memories[i].state == MemState::Empty && object.state != MemState::Empty
                ==> forall|f: int|
                base <= f < base + object.pages && f < m.uses.len() && m.uses[f] == FrameUse::Held(
                    Owner::Scope(object.sponsor),
                ) ==> #[trigger] after.uses[f] == FrameUse::Free || after.uses[f]
                    == FrameUse::Retired(Owner::Scope(object.sponsor))
        }),
{
    assert(crate::state::memory_ok(m.memories[i]));
}

/// Frames wait in quarantine until the withdrawal of the last mapping has been
/// acknowledged, or every processor that could hold it has flushed since.
pub proof fn frames_wait_for_the_processors(
    m: MachineModel,
    object: MemoryObject,
    acknowledged: bool,
)
    requires
        m.frames_settled(object, acknowledged),
        !acknowledged,
        object.unmapped_at != 0,
    ensures
        (forall|c: int|
            0 <= c < crate::limits::MAX_CPUS && object.unmapped_cpus@[c]
                ==> (#[trigger] m.cpus[c]).flushed >= object.unmapped_at) || forall|c: int|
            0 <= c < crate::limits::MAX_CPUS && m.cpus[c].online ==> (
            #[trigger] m.cpus[c]).flushed >= object.unmapped_at,
{
    let online = Seq::new(crate::limits::MAX_CPUS as nat, |c: int| m.cpus[c].online);
    if m.flushed_past(online, object.unmapped_at) {
        assert forall|c: int| 0 <= c < crate::limits::MAX_CPUS && m.cpus[c].online implies (
        #[trigger] m.cpus[c]).flushed >= object.unmapped_at by {
            assert(online[c]);
        }
    }
}

/// No page can be both written and executed, and a page that can be either can be
/// read; what is accepted is what was asked for.
pub proof fn no_page_is_written_and_executed(rights: u32)
    ensures
        ({
            let read = rights & right::MEMORY_READ != 0;
            let write = rights & right::MEMORY_WRITE != 0;
            let execute = rights & right::MEMORY_EXECUTE != 0;
            &&& platform_rights(rights) is Ok <==> read && !(write && execute)
            &&& platform_rights(rights) matches Ok(r) ==> {
                &&& r.read == read
                &&& r.write == write
                &&& r.execute == execute
                &&& r.user
                &&& !r.uncacheable
            }
        }),
{
}

/// Bytes are written only to an object that is open for writing and only within
/// its pages.
pub proof fn bytes_are_written_within_the_object(
    m: MachineModel,
    ctx: Ctx,
    request: crate::abi::request::MemoryBytes,
)
    ensures
        ({
            let object = m.memories[ctx.cap.object.index as int];
            m.write_fault(ctx, request) is None <==> {
                &&& object.state == MemState::Mutable
                &&& request.length <= crate::limits::MAX_INLINE_PAYLOAD
                &&& request.offset + request.length <= object.pages * 0x1000
            }
        }),
{
}

/// A seal is published only once no writer is left and every processor has
/// acknowledged it.
pub proof fn a_seal_waits_for_every_writer(
    m: MachineModel,
    o: int,
    generation: u32,
    acknowledged: bool,
)
    ensures
        m.seal_fault(o, generation, acknowledged) is None <==> {
            &&& m.memories[o].generation == generation
            &&& m.memories[o].state != MemState::Empty
            &&& m.memories[o].writable_maps == 0
            &&& acknowledged
        },
{
}

/// A copy goes from an object that its caller may read to the one it may write, is
/// whole in both, and is refused only where one of these does not hold.
pub proof fn a_copy_stays_within_both_objects(
    m: MachineModel,
    ctx: Ctx,
    request: MemoryCopyRequest,
    source: Resolved,
)
    requires
        m.resolved(
            ctx.domain as int,
            request.source_handle,
            object_type::MEMORY,
            right::MEMORY_READ,
            ctx.now,
        ) == Ok::<Resolved, Status>(source),
    ensures
        ({
            let from = m.memories[source.object.index as int];
            let to = m.memories[ctx.cap.object.index as int];
            let fits = request.source_offset + request.length <= from.pages * 0x1000
                && request.dest_offset + request.length <= to.pages * 0x1000;
            let apart = request.length == 0 || source.object.index != ctx.cap.object.index;
            &&& m.copy_fault(ctx, request) is None <==> to.state == MemState::Mutable && fits
                && apart
            &&& to.state != MemState::Mutable ==> m.copy_fault(ctx, request) == Some(
                Status::StateConflict,
            )
            &&& to.state == MemState::Mutable && !(fits && apart) ==> m.copy_fault(ctx, request)
                == Some(Status::InvalidArgument)
        }),
{
}

/// An unmapping that is answered takes back the mapping that its request names, of
/// the domain that its handle names with the right to build; one that is refused
/// changes nothing.
pub proof fn an_unmap_request_takes_back_its_mapping(
    m: Machine,
    ctx: Ctx,
    request: UnmapRequest,
    now: u64,
    cpu: int,
    w: u64,
)
    requires
        m.wf(),
        ctx.domain < MAX_DOMAINS,
        w < USER_END,
    ensures
        ({
            let (after, result) = m@.unmap_begun(ctx, request, now, cpu);
            let named = m@.resolved(
                ctx.domain as int,
                ctx.handle,
                object_type::DOMAIN,
                right::DOMAIN_BUILD,
                now,
            );
            &&& result is Err ==> after == m@
            &&& result is Ok ==> request.reserved0 == 0 && named is Ok
            &&& result is Ok && m@.domains[named->Ok_0.object.index as int].space is Some ==> {
                let d = named->Ok_0.object.index as int;
                let end = request.vaddr + request.page_count * 0x1000;
                &&& after.translated(d, w) == if request.vaddr <= w < end {
                    None
                } else {
                    m@.translated(d, w)
                }
                &&& exists|i: int|
                    {
                        &&& 0 <= i < MAX_MAPS
                        &&& m@.maps[i].used
                        &&& m@.maps[i].domain == d
                        &&& m@.maps[i].vaddr == request.vaddr
                        &&& m@.maps[i].pages == request.page_count
                        &&& !(#[trigger] after.maps[i]).used
                        &&& forall|k: int|
                            0 <= k < MAX_MAPS && k != i ==> #[trigger] after.maps[k]
                                == m@.maps[k]
                    }
            }
        }),
{
    let (after, result) = m@.unmap_begun(ctx, request, now, cpu);
    if let Ok(cap) = m@.resolved(
        ctx.domain as int,
        ctx.handle,
        object_type::DOMAIN,
        right::DOMAIN_BUILD,
        now,
    ) {
        let d = cap.object.index as int;
        let i = m@.named_map(0, d, request);
        an_unmapping_names_a_mapping(m@, d, request, 0);
        if result is Ok && m@.domains[d].space is Some {
            unmapping_takes_back_what_was_mapped(m, i, cpu, w);
            assert(!after.maps[i].used);
        }
    }
}

/// A record that lets a domain write an object.
pub open spec fn lets_write(record: MapRecord, o: int, generation: u32) -> bool {
    &&& record.used
    &&& record.memory == o
    &&& record.memory_generation == generation
    &&& record.rights & right::MEMORY_WRITE != 0
}

proof fn writers_go(m: MachineModel, o: int, generation: u32, cpu: int, n: nat)
    requires
        m.maps.len() == MAX_MAPS,
        n <= MAX_MAPS,
    ensures
        ({
            let (after, maps, _) = m.writers_dropped(o, generation, cpu, n);
            &&& after.maps.len() == MAX_MAPS
            &&& forall|k: int|
                0 <= k < MAX_MAPS ==> #[trigger] after.maps[k] == if k < n && lets_write(
                    m.maps[k],
                    o,
                    generation,
                ) {
                    MapRecord::empty_spec()
                } else {
                    m.maps[k]
                }
            &&& maps == how_many(|k: int| lets_write(m.maps[k], o, generation), n as int)
            &&& maps <= n
        }),
    decreases n,
{
    if n > 0 {
        writers_go(m, o, generation, cpu, (n - 1) as nat);
        let before = m.writers_dropped(o, generation, cpu, (n - 1) as nat).0;
        assert(before.maps[n - 1] == m.maps[n - 1]);
        if lets_write(m.maps[n - 1], o, generation) {
            dropping_frees_one(before, n - 1, cpu);
        }
    }
}

/// A seal that begins takes every mapping away through which the object could be
/// written, and no other: not one is left, each that only reads stays, and as many
/// are reported as there were.
pub proof fn a_seal_takes_every_writer_away(m: MachineModel, ctx: Ctx, now: u64, cpu: int)
    requires
        m.wf(),
        ctx.domain < MAX_DOMAINS,
    ensures
        ({
            let (after, result) = m.seal_begun(ctx, now, cpu);
            &&& !(result matches Ok(Sealing::Withdrawn(_))) ==> after == m
            &&& result matches Ok(Sealing::Withdrawn(writers)) ==> {
                let o = writers.memory as int;
                let object = m.memories[o];
                &&& m.resolved(
                    ctx.domain as int,
                    ctx.handle,
                    object_type::MEMORY,
                    right::MEMORY_SEAL,
                    now,
                ) matches Ok(cap) && cap.object.index == o
                &&& object.state != MemState::Sealed
                &&& object.dma_grants == 0
                &&& writers.generation == object.generation
                &&& writers.maps == how_many(
                    |k: int| lets_write(m.maps[k], o, object.generation),
                    MAX_MAPS as int,
                )
                &&& forall|k: int|
                    0 <= k < MAX_MAPS ==> !lets_write(
                        #[trigger] after.maps[k],
                        o,
                        object.generation,
                    )
                &&& forall|k: int|
                    0 <= k < MAX_MAPS && !lets_write(m.maps[k], o, object.generation)
                        ==> #[trigger] after.maps[k] == m.maps[k]
            }
        }),
{
    if let Ok(cap) = m.resolved(
        ctx.domain as int,
        ctx.handle,
        object_type::MEMORY,
        right::MEMORY_SEAL,
        now,
    ) {
        let o = cap.object.index as int;
        let generation = m.memories[o].generation;
        let closing = m.sealing(o);
        writers_go(closing, o, generation, cpu, MAX_MAPS as nat);
        counted_alike(
            |k: int| lets_write(closing.maps[k], o, generation),
            |k: int| lets_write(m.maps[k], o, generation),
            MAX_MAPS as int,
        );
    }
}

} // verus!
