//! Memory objects: creation, mediated access, mapping withdrawal and sealing.

use vstd::prelude::*;

use crate::abi::request::{MemoryBytes, MemoryCopyRequest, MemoryCreateRequest, MemoryInfo};
use crate::abi::status::Status;
use crate::abi::{object_type, right};
use crate::api::calls::caller_ok;
use crate::api::{claim, collect_grant, ctx_ok, hold_grant, mint, resolve, Ctx};
use crate::backing::count_changes;
use crate::bytes::{array_of, array_of_elements};
use crate::ctrl::{one_less, one_more};
use crate::limits::{
    MAX_CPUS, MAX_DERIVE_DEPTH, MAX_DOMAINS, MAX_INLINE_PAYLOAD, MAX_MAPS, MAX_MEMORY_OBJECTS,
    MAX_OBJECT_PAGES,
};
use crate::memobj::{MapRecord, MemoryObject, State};
use crate::mm::{first_run, give_back_undoes_take, has_run, run_is_zero, Frame, Owner, Rights};
use crate::obj::{ObjKind, ObjRef, NO_GRANT};
use crate::scope::{self, room_is_separate, Resource, Scope};
use crate::state::{Machine, MachineModel};

verus! {

impl MachineModel {
    /// Every processor of `set` that matters has flushed past `generation`:
    /// those named, or all that are online.
    pub open spec fn flushed_past(self, set: Seq<bool>, generation: u64) -> bool {
        forall|c: int|
            0 <= c < MAX_CPUS && set[c] ==> (#[trigger] self.cpus[c]).flushed >= generation
    }

    /// The frames of a memory object can be handed out again at once: the
    /// withdrawal of its last mapping has been acknowledged by every processor
    /// that could hold a translation of it.
    pub open spec fn frames_settled(self, object: MemoryObject, acknowledged: bool) -> bool {
        ||| acknowledged
        ||| object.unmapped_at == 0
        ||| self.flushed_past(object.unmapped_cpus@, object.unmapped_at)
        ||| self.flushed_past(
            Seq::new(MAX_CPUS as nat, |c: int| self.cpus[c].online),
            object.unmapped_at,
        )
    }

    /// Nothing can reach a memory object, and its sponsor can be credited.
    pub open spec fn is_idle_memory(self, i: int) -> bool {
        let object = self.memories[i];
        let sponsor = self.scopes[object.sponsor as int].state;
        &&& object.state != State::Empty
        &&& object.refs == 0
        &&& object.map_count == 0
        &&& object.dma_grants == 0
        &&& sponsor == scope::State::Open || sponsor == scope::State::Fenced || sponsor
            == scope::State::Quiescent
    }

    /// The machine once a memory object that nothing can reach has been
    /// released.
    pub open spec fn collect_memory(self, i: int, acknowledged: bool) -> MachineModel {
        let object = self.memories[i];
        if self.is_idle_memory(i) {
            self.frames_back(
                object.base,
                object.pages as u64,
                Owner::Scope(object.sponsor),
                self.frames_settled(object, acknowledged),
            ).uncharge(object.sponsor, Resource::MemoryPages, object.pages as u64).uncharge(
                object.sponsor,
                Resource::Metadata,
                1,
            ).with_memory(
                i,
                MemoryObject { generation: object.generation, ..MemoryObject::empty_spec() },
            )
        } else {
            self
        }
    }
}

/// Whether every processor of a set has flushed past a generation.
pub fn flushed_by(machine: &Machine, set: &[bool; MAX_CPUS], generation: u64) -> (yes: bool)
    requires
        machine.wf(),
    ensures
        yes == machine@.flushed_past(set@, generation),
{
    for c in 0..MAX_CPUS
        invariant
            machine.wf(),
            forall|k: int|
                0 <= k < c && set@[k] ==> (#[trigger] machine@.cpus[k]).flushed >= generation,
    {
        let cpu = machine.cpu(c);
        if set[c] && cpu.flushed < generation {
            return false;
        }
    }
    true
}

/// Whether every processor that takes part has flushed past a generation.
pub fn all_flushed(machine: &Machine, generation: u64) -> (yes: bool)
    requires
        machine.wf(),
    ensures
        yes == machine@.flushed_past(
            Seq::new(MAX_CPUS as nat, |c: int| machine@.cpus[c].online),
            generation,
        ),
{
    let ghost online = Seq::new(MAX_CPUS as nat, |c: int| machine@.cpus[c].online);
    for c in 0..MAX_CPUS
        invariant
            machine.wf(),
            online == Seq::new(MAX_CPUS as nat, |c: int| machine@.cpus[c].online),
            forall|k: int|
                0 <= k < c && online[k] ==> (#[trigger] machine@.cpus[k]).flushed >= generation,
    {
        let cpu = machine.cpu(c);
        if cpu.online && cpu.flushed < generation {
            assert(online[c as int]);
            return false;
        }
    }
    true
}

/// Releases a memory object nothing can reach any more.
pub fn collect_memory(machine: &mut Machine, index: usize)
    requires
        old(machine).wf(),
    ensures
        final(machine).wf(),
        final(machine).same_tables(*old(machine)),
        final(machine)@ == if index < MAX_MEMORY_OBJECTS {
            old(machine)@.collect_memory(index as int, false)
        } else {
            old(machine)@
        },
{
    collect_memory_acked(machine, index, false);
}

/// Releases a memory object nothing can reach any more, `acknowledged` saying
/// whether the withdrawal of its last mapping has already been acknowledged by
/// every processor that could have held one of its translations.
pub fn collect_memory_acked(machine: &mut Machine, index: usize, acknowledged: bool)
    requires
        old(machine).wf(),
    ensures
        final(machine).wf(),
        final(machine).same_tables(*old(machine)),
        final(machine)@ == if index < MAX_MEMORY_OBJECTS {
            old(machine)@.collect_memory(index as int, acknowledged)
        } else {
            old(machine)@
        },
{
    if index >= MAX_MEMORY_OBJECTS {
        return;
    }
    let object = machine.memory(index);
    if object.state == State::Empty || object.refs != 0 || object.map_count != 0
        || object.dma_grants != 0 {
        return;
    }
    let sponsor: u16 = object.sponsor;
    let state = machine.scope(sponsor as usize).state;
    if state != scope::State::Open && state != scope::State::Fenced && state
        != scope::State::Quiescent {
        return;
    }
    let immediate = acknowledged || object.unmapped_at == 0 || flushed_by(
        machine,
        &object.unmapped_cpus,
        object.unmapped_at,
    ) || all_flushed(machine, object.unmapped_at);
    machine.give_back(object.base, object.pages as u64, Owner::Scope(sponsor), immediate);
    machine.uncharge(sponsor, Resource::MemoryPages, object.pages as u64);
    machine.uncharge(sponsor, Resource::Metadata, 1);
    proof {
        machine.wf_sized();
        machine.wf_stands();
        machine@.backing().uncounted_is_unmapped(index as int);
    }
    machine.set_memory(
        index,
        MemoryObject { generation: object.generation, ..MemoryObject::empty() },
    );
}

/// What memory rights are asked of the platform, or why they are refused: a page
/// that can be written or executed can be read, and none can be both written
/// and executed.
pub open spec fn platform_rights(rights: u32) -> Result<Rights, Status> {
    let read = rights & right::MEMORY_READ != 0;
    let write = rights & right::MEMORY_WRITE != 0;
    let execute = rights & right::MEMORY_EXECUTE != 0;
    if !read && (write || execute) {
        Err(Status::InsufficientRights)
    } else if write && execute || !read {
        Err(Status::InvalidArgument)
    } else {
        Ok(
            Rights { read, write, execute, user: true, uncacheable: false },
        )
    }
}

/// Translates interface memory rights into a platform mapping request.
pub fn mapping_rights(rights: u32) -> (result: Result<Rights, Status>)
    ensures
        result == platform_rights(rights),
        result matches Ok(r) ==> r.fault() is None,
{
    let read = rights & right::MEMORY_READ != 0;
    let write = rights & right::MEMORY_WRITE != 0;
    let execute = rights & right::MEMORY_EXECUTE != 0;
    if !read && (write || execute) {
        return Err(Status::InsufficientRights);
    }
    if write && execute {
        return Err(Status::InvalidArgument);
    }
    if !read {
        return Err(Status::InvalidArgument);
    }
    Ok(Rights::user(read, write, execute))
}

/// The first free memory object from `from` on, or [`MAX_MEMORY_OBJECTS`].
pub open spec fn first_memory(memories: Seq<MemoryObject>, from: int) -> int
    decreases MAX_MEMORY_OBJECTS - from,
{
    if from >= MAX_MEMORY_OBJECTS {
        MAX_MEMORY_OBJECTS as int
    } else if memories[from].state == State::Empty {
        from
    } else {
        first_memory(memories, from + 1)
    }
}

impl MachineModel {
    /// Why a memory object is not created, or nothing when it is.
    pub open spec fn memory_fault(self, ctx: Ctx, request: MemoryCreateRequest) -> Option<Status> {
        let sponsor = ctx.cap.object.index;
        if request.reserved0 != 0 || request.pages == 0 || request.pages > MAX_OBJECT_PAGES {
            Some(Status::InvalidArgument)
        } else if request.max_rights & !ObjKind::Memory.mask_spec() != 0 {
            Some(Status::InvalidArgument)
        } else if !self.is_open(sponsor) {
            Some(Status::ScopeClosed)
        } else if first_memory(self.memories, 0) == MAX_MEMORY_OBJECTS || !self.affords(
            sponsor,
            Resource::MemoryPages,
            request.pages as int,
        ) || !has_run(self.uses, request.pages as int) || !self.can_create(
            sponsor,
            ctx.domain as int,
        ) {
            Some(Status::LimitExhausted)
        } else {
            None
        }
    }

    /// The machine once a memory object has been created.
    ///
    /// The ceiling is on what may be done to the pages; its creator can in any
    /// case inspect the object, narrow its capability and hand it on.
    pub open spec fn memory_created(self, ctx: Ctx, request: MemoryCreateRequest) -> MachineModel {
        let sponsor = ctx.cap.object.index;
        let i = first_memory(self.memories, 0);
        let base = first_run(self.uses, request.pages as int);
        let generation = one_more(self.memories[i].generation);
        self.frames_taken(base, request.pages, Owner::Scope(sponsor)).claimed(sponsor).charge(
            sponsor,
            Resource::MemoryPages,
            request.pages,
        ).with_memory(
            i,
            MemoryObject {
                state: State::Mutable,
                generation,
                id: self.next_id,
                base: Frame { number: base as u64 },
                pages: request.pages as u32,
                max_rights: request.max_rights,
                sponsor,
                label: request.label,
                ..MemoryObject::empty_spec()
            },
        ).owned(
            ctx.domain as int,
            ObjRef { kind: ObjKind::Memory, index: i as u16, generation },
            request.max_rights | right::COMMON,
        )
    }

    /// State of a memory object.
    pub open spec fn memory_info(self, i: int) -> MemoryInfo {
        let object = self.memories[i];
        MemoryInfo {
            state: object.state.abi_spec(),
            max_rights: object.max_rights,
            map_count: object.map_count,
            writable_maps: object.writable_maps,
            pages: object.pages as u64,
            object_id: object.id,
            sponsor_scope_id: self.scopes[object.sponsor as int].id,
            label: object.label,
        }
    }
}

/// Creates a memory object sponsored by the addressed scope.
pub fn create(machine: &mut Machine, ctx: &Ctx, request: &MemoryCreateRequest) -> (result: Result<
    u64,
    Status,
>)
    requires
        old(machine).wf(),
        ctx_ok(*ctx, ObjKind::Scope),
    ensures
        final(machine).wf(),
        final(machine).kernel_as(*old(machine)),
        match old(machine)@.memory_fault(*ctx, *request) {
            Some(code) => {
                &&& result == Err::<u64, Status>(code)
                &&& final(machine)@ == old(machine)@
            },
            None => {
                &&& final(machine)@ == old(machine)@.memory_created(*ctx, *request)
                &&& run_is_zero(
                    final(machine).frames,
                    first_run(old(machine)@.uses, request.pages as int),
                    request.pages as int,
                )
                &&& result == Ok::<u64, Status>(old(machine)@.minted_handle(ctx.domain as int))
            },
        },
{
    if request.reserved0 != 0 || request.pages == 0 || request.pages > MAX_OBJECT_PAGES {
        return Err(Status::InvalidArgument);
    }
    if request.max_rights & !ObjKind::Memory.rights_mask() != 0 {
        return Err(Status::InvalidArgument);
    }
    let sponsor: u16 = ctx.cap.object.index;
    if machine.scope(sponsor as usize).state != scope::State::Open {
        return Err(Status::ScopeClosed);
    }
    let mut i: usize = 0;
    while i < MAX_MEMORY_OBJECTS && machine.memory(i).state != State::Empty
        invariant
            machine.wf(),
            i <= MAX_MEMORY_OBJECTS,
            first_memory(machine@.memories, 0) == first_memory(machine@.memories, i as int),
        decreases MAX_MEMORY_OBJECTS - i,
    {
        i += 1;
    }
    if i == MAX_MEMORY_OBJECTS || !machine.affords(sponsor, Resource::MemoryPages, request.pages) {
        return Err(Status::LimitExhausted);
    }
    let ghost m = machine@;
    let base = match machine.take_frames(request.pages, Owner::Scope(sponsor)) {
        None => {
            return Err(Status::LimitExhausted);
        },
        Some(base) => base,
    };
    let ghost taken = *machine;
    let id: u64 = match claim(machine, ctx.domain, sponsor) {
        None => {
            proof {
                give_back_undoes_take(
                    m.uses,
                    base.number as int,
                    request.pages as int,
                    Owner::Scope(sponsor),
                );
            }
            machine.give_back(base, request.pages, Owner::Scope(sponsor), true);
            assert(machine@ =~= m);
            proof {
                machine.kernel_goes_on(taken, *old(machine));
            }
            return Err(Status::LimitExhausted);
        },
        Some(id) => id,
    };
    let owner: u16 = machine.domain(ctx.domain).owner_scope;
    proof {
        old(machine).wf_scopes();
        machine.wf_scopes();
        let paid = machine@.scopes;
        room_is_separate(
            m.scopes,
            sponsor as int,
            Resource::MemoryPages,
            request.pages as int,
            sponsor as int,
            Resource::Metadata,
            1,
        );
        room_is_separate(
            paid,
            owner as int,
            Resource::Metadata,
            1,
            sponsor as int,
            Resource::MemoryPages,
            request.pages as int,
        );
        room_is_separate(
            paid,
            owner as int,
            Resource::Metadata,
            2,
            sponsor as int,
            Resource::MemoryPages,
            request.pages as int,
        );
    }
    machine.charge(sponsor, Resource::MemoryPages, request.pages);
    let generation: u32 = machine.memory(i).generation.saturating_add(1);
    proof {
        machine.wf_sized();
        machine.wf_stands();
        machine@.backing().uncounted_is_unmapped(i as int);
    }
    machine.set_memory(
        i,
        MemoryObject {
            state: State::Mutable,
            generation,
            id,
            base,
            pages: request.pages as u32,
            max_rights: request.max_rights,
            sponsor,
            label: request.label,
            ..MemoryObject::empty()
        },
    );
    let object = ObjRef { kind: ObjKind::Memory, index: i as u16, generation };
    let minted = mint(
        machine,
        ctx.domain,
        NO_GRANT,
        object,
        request.max_rights | right::COMMON,
        0,
        None,
        0,
    );
    proof {
        machine.kernel_goes_on(taken, *old(machine));
    }
    match minted {
        Some(handle) => Ok(handle),
        None => Err(Status::LimitExhausted),
    }
}

/// Reports size, maximum rights, seal state and alias counts.
pub fn query(machine: &Machine, ctx: &Ctx) -> (info: MemoryInfo)
    requires
        machine.wf(),
        ctx_ok(*ctx, ObjKind::Memory),
    ensures
        info == machine@.memory_info(ctx.cap.object.index as int),
{
    describe(machine, ctx.cap.object.index as usize)
}

/// Describes a memory object as the interface reports it.
fn describe(machine: &Machine, index: usize) -> (info: MemoryInfo)
    requires
        machine.wf(),
        index < MAX_MEMORY_OBJECTS,
    ensures
        info == machine@.memory_info(index as int),
{
    let object = machine.memory(index);
    MemoryInfo {
        state: object.state.abi(),
        max_rights: object.max_rights,
        map_count: object.map_count,
        writable_maps: object.writable_maps,
        pages: object.pages as u64,
        object_id: object.id,
        sponsor_scope_id: machine.scope(object.sponsor as usize).id,
        label: object.label,
    }
}

fn range_ok(offset: u64, length: u64, size: u64) -> (yes: bool)
    ensures
        yes == (offset + length <= size),
{
    offset <= size && length <= size - offset
}

impl MachineModel {
    /// Why a range is not copied, or nothing when it is.
    pub open spec fn copy_fault(self, ctx: Ctx, request: MemoryCopyRequest) -> Option<Status> {
        let dest = ctx.cap.object.index as int;
        match self.resolved(
            ctx.domain as int,
            request.source_handle,
            object_type::MEMORY,
            right::MEMORY_READ,
            ctx.now,
        ) {
            Err(code) => Some(code),
            Ok(source) => {
                let origin = source.object.index as int;
                if self.memories[dest].state != State::Mutable {
                    Some(Status::StateConflict)
                } else if request.source_offset + request.length
                    > self.memories[origin].len_spec() || request.dest_offset + request.length
                    > self.memories[dest].len_spec() {
                    Some(Status::InvalidArgument)
                } else if request.length != 0 && origin == dest {
                    Some(Status::InvalidArgument)
                } else {
                    None
                }
            },
        }
    }

    /// Why bytes are not written, or nothing when they are.
    pub open spec fn write_fault(self, ctx: Ctx, request: MemoryBytes) -> Option<Status> {
        let object = self.memories[ctx.cap.object.index as int];
        if object.state != State::Mutable {
            Some(Status::StateConflict)
        } else if request.length > MAX_INLINE_PAYLOAD || request.offset + request.length
            > object.len_spec() {
            Some(Status::InvalidArgument)
        } else {
            None
        }
    }
}

/// What `to` holds once `length` bytes of `from` have been copied to it.
pub open spec fn copied(
    from: Seq<u8>,
    from_offset: int,
    to: Seq<u8>,
    to_offset: int,
    length: int,
) -> Seq<u8> {
    Seq::new(
        to.len(),
        |i: int|
            if to_offset <= i < to_offset + length {
                from[from_offset + i - to_offset]
            } else {
                to[i]
            },
    )
}

fn copy_bytes(
    from: &[u8],
    from_offset: usize,
    to: &mut Vec<u8>,
    to_offset: usize,
    length: usize,
)
    requires
        from_offset + length <= from@.len(),
        to_offset + length <= old(to)@.len(),
    ensures
        final(to)@ == copied(
            from@,
            from_offset as int,
            old(to)@,
            to_offset as int,
            length as int,
        ),
{
    let from_end: usize = from.len();
    let to_end: usize = to.len();
    for i in 0..length
        invariant
            from_end == from@.len(),
            to_end == old(to)@.len(),
            from_offset + length <= from_end,
            to_offset + length <= to_end,
            to@.len() == old(to)@.len(),
            forall|k: int|
                0 <= k < to@.len() ==> #[trigger] to@[k] == if to_offset <= k < to_offset + i {
                    from@[from_offset + k - to_offset]
                } else {
                    old(to)@[k]
                },
    {
        let byte: u8 = from[from_offset + i];
        to.set(to_offset + i, byte);
    }
    assert(to@ =~= copied(
        from@,
        from_offset as int,
        old(to)@,
        to_offset as int,
        length as int,
    ));
}

/// Copies a bounded range from a readable object into this writable one.
///
/// `source` and `dest` are what the two objects hold; a refusal leaves `dest` as
/// it was.
pub fn copy(
    machine: &Machine,
    ctx: &Ctx,
    request: &MemoryCopyRequest,
    source: &[u8],
    dest: &mut Vec<u8>,
) -> (result: Result<u64, Status>)
    requires
        machine.wf(),
        ctx_ok(*ctx, ObjKind::Memory),
        machine@.resolved(
            ctx.domain as int,
            request.source_handle,
            object_type::MEMORY,
            right::MEMORY_READ,
            ctx.now,
        ) matches Ok(cap) ==> source@.len()
            == machine@.memories[cap.object.index as int].len_spec(),
        old(dest)@.len() == machine@.memories[ctx.cap.object.index as int].len_spec(),
    ensures
        match machine@.copy_fault(*ctx, *request) {
            Some(code) => {
                &&& result == Err::<u64, Status>(code)
                &&& final(dest)@ == old(dest)@
            },
            None => {
                &&& result == Ok::<u64, Status>(request.length)
                &&& final(dest)@ == copied(
                    source@,
                    request.source_offset as int,
                    old(dest)@,
                    request.dest_offset as int,
                    request.length as int,
                )
            },
        },
{
    let cap = match resolve(
        machine,
        ctx.domain,
        request.source_handle,
        object_type::MEMORY,
        right::MEMORY_READ,
        ctx.now,
    ) {
        Err(code) => {
            return Err(code);
        },
        Ok(cap) => cap,
    };
    assert(cap.object.kind == ObjKind::Memory);
    let to: usize = ctx.cap.object.index as usize;
    let from: usize = cap.object.index as usize;
    let target = machine.memory(to);
    let origin = machine.memory(from);
    if target.state != State::Mutable {
        return Err(Status::StateConflict);
    }
    if !range_ok(request.source_offset, request.length, origin.len()) || !range_ok(
        request.dest_offset,
        request.length,
        target.len(),
    ) {
        return Err(Status::InvalidArgument);
    }
    if request.length == 0 {
        assert(dest@ =~= copied(
            source@,
            request.source_offset as int,
            old(dest)@,
            request.dest_offset as int,
            0,
        ));
        return Ok(0);
    }
    if from == to {
        return Err(Status::InvalidArgument);
    }
    let source_end: usize = source.len();
    let dest_end: usize = dest.len();
    assert(request.source_offset as usize == request.source_offset);
    assert(request.dest_offset as usize == request.dest_offset);
    assert(request.length as usize == request.length);
    copy_bytes(
        source,
        request.source_offset as usize,
        dest,
        request.dest_offset as usize,
        request.length as usize,
    );
    Ok(request.length)
}

/// Mediated write of a bounded range.
///
/// `bytes` is what the object holds. Writing reveals nothing of what it held
/// before, which is what lets a capability carry write without read.
pub fn write(machine: &Machine, ctx: &Ctx, request: &MemoryBytes, bytes: &mut Vec<u8>) -> (result:
    Result<u64, Status>)
    requires
        machine.wf(),
        ctx_ok(*ctx, ObjKind::Memory),
        old(bytes)@.len() == machine@.memories[ctx.cap.object.index as int].len_spec(),
    ensures
        match machine@.write_fault(*ctx, *request) {
            Some(code) => {
                &&& result == Err::<u64, Status>(code)
                &&& final(bytes)@ == old(bytes)@
            },
            None => {
                &&& result == Ok::<u64, Status>(request.length)
                &&& final(bytes)@ == copied(
                    request.bytes@,
                    0,
                    old(bytes)@,
                    request.offset as int,
                    request.length as int,
                )
            },
        },
{
    let object = machine.memory(ctx.cap.object.index as usize);
    if object.state != State::Mutable {
        return Err(Status::StateConflict);
    }
    if request.length > MAX_INLINE_PAYLOAD as u64 || !range_ok(
        request.offset,
        request.length,
        object.len(),
    ) {
        return Err(Status::InvalidArgument);
    }
    let end: usize = bytes.len();
    assert(request.offset as usize == request.offset);
    copy_bytes(
        request.bytes.as_slice(),
        0,
        bytes,
        request.offset as usize,
        request.length as usize,
    );
    Ok(request.length)
}

/// Mediated read of a bounded range; `bytes` is what the object holds.
pub fn read(machine: &Machine, ctx: &Ctx, offset: u64, length: u64, bytes: &[u8]) -> (result:
    Result<MemoryBytes, Status>)
    requires
        machine.wf(),
        ctx_ok(*ctx, ObjKind::Memory),
        bytes@.len() == machine@.memories[ctx.cap.object.index as int].len_spec(),
    ensures
        if length > MAX_INLINE_PAYLOAD || offset + length > bytes@.len() {
            result == Err::<MemoryBytes, Status>(Status::InvalidArgument)
        } else {
            result == Ok::<MemoryBytes, Status>(
                MemoryBytes {
                    offset,
                    length,
                    bytes: array_of(
                        Seq::new(
                            MAX_INLINE_PAYLOAD as nat,
                            |i: int|
                                if i < length {
                                    bytes@[offset + i]
                                } else {
                                    0
                                },
                        ),
                    ),
                },
            )
        },
{
    let object = machine.memory(ctx.cap.object.index as usize);
    if length > MAX_INLINE_PAYLOAD as u64 || !range_ok(offset, length, object.len()) {
        return Err(Status::InvalidArgument);
    }
    let end: usize = bytes.len();
    let start: usize = offset as usize;
    let count: usize = length as usize;
    let mut out: [u8; MAX_INLINE_PAYLOAD] = [0; MAX_INLINE_PAYLOAD];
    for i in 0..count
        invariant
            count <= MAX_INLINE_PAYLOAD,
            end == bytes@.len(),
            start + count <= end,
            forall|k: int|
                0 <= k < MAX_INLINE_PAYLOAD ==> #[trigger] out@[k] == if k < i {
                    bytes@[start + k]
                } else {
                    0
                },
    {
        out[i] = bytes[start + i];
    }
    proof {
        assert(out@ =~= Seq::new(
            MAX_INLINE_PAYLOAD as nat,
            |i: int|
                if i < length {
                    bytes@[offset + i]
                } else {
                    0
                },
        ));
        array_of_elements(out);
    }
    Ok(MemoryBytes { offset, length, bytes: out })
}

impl MachineModel {
    /// The processors that may still hold a translation of a domain's pages
    /// after `cpu` has removed them: those that have its space loaded, except
    /// `cpu` itself.
    pub open spec fn holders(self, object: MemoryObject, domain: int, cpu: int) -> Seq<bool> {
        Seq::new(
            MAX_CPUS as nat,
            |c: int|
                object.unmapped_cpus@[c] || c != cpu && self.cpus[c].space == Some(domain as u16),
        )
    }

    /// The machine, and the number of pages removed, once the translations of a
    /// mapping are gone.
    pub open spec fn map_cleared(self, i: int) -> (MachineModel, u32) {
        let record = self.maps[i];
        let d = record.domain as int;
        if self.domains[d].space is Some {
            self.unmap_pages(self.root_of(d), record.vaddr, record.pages as nat)
        } else {
            (self, 0)
        }
    }

    /// The object a mapping was made of is still there.
    pub open spec fn same_object(self, record: MapRecord) -> bool {
        self.memories[record.memory as int].generation == record.memory_generation
    }

    /// The machine, and the number of pages removed, once a mapping has been
    /// withdrawn by `cpu`, the object it was made of not yet collected.
    pub open spec fn map_withdrawn(self, i: int, cpu: int) -> (MachineModel, u32) {
        let record = self.maps[i];
        let o = record.memory as int;
        if !record.used {
            (self, 0)
        } else {
            let (cut, removed) = self.map_cleared(i);
            let same = cut.same_object(record);
            let counted = if same {
                cut.with_memory(
                    o,
                    MemoryObject {
                        map_count: one_less(cut.memories[o].map_count),
                        writable_maps: if record.rights & right::MEMORY_WRITE != 0 {
                            one_less(cut.memories[o].writable_maps)
                        } else {
                            cut.memories[o].writable_maps
                        },
                        ..cut.memories[o]
                    },
                )
            } else {
                cut
            };
            let s = record.scope as int;
            let unpaid = counted.with_scope(
                s,
                Scope {
                    maps_pending: one_less(counted.scopes[s].maps_pending),
                    ..counted.scopes[s]
                },
            ).uncharge(record.scope, Resource::Metadata, 1).with_map(i, MapRecord::empty_spec());
            let unheld = if record.grant == NO_GRANT {
                unpaid
            } else {
                unpaid.count_grant(record.grant, false).collect_grant(
                    record.grant,
                    MAX_DERIVE_DEPTH as nat,
                )
            };
            if removed == 0 {
                (unheld, removed)
            } else {
                let told = unheld.publish();
                if same {
                    (
                        told.with_memory(
                            o,
                            MemoryObject {
                                unmapped_at: told.published,
                                unmapped_cpus: array_of(
                                    told.holders(told.memories[o], record.domain as int, cpu),
                                ),
                                ..told.memories[o]
                            },
                        ),
                        removed,
                    )
                } else {
                    (told, removed)
                }
            }
        }
    }

    /// The machine, and the number of pages removed, once a mapping has been
    /// withdrawn and the object it was made of, if nothing else reaches it, has
    /// been collected.
    pub open spec fn map_dropped(self, i: int, cpu: int) -> (MachineModel, u32) {
        let record = self.maps[i];
        let (after, removed) = self.map_withdrawn(i, cpu);
        if record.used && self.same_object(record) {
            (after.collect_memory(record.memory as int, false), removed)
        } else {
            (after, removed)
        }
    }

    /// A writable mapping of a memory object.
    pub open spec fn is_writer(self, i: int, o: int, generation: u32) -> bool {
        let record = self.maps[i];
        &&& record.used
        &&& record.memory == o
        &&& record.memory_generation == generation
        &&& record.rights & right::MEMORY_WRITE != 0
    }

    /// The machine, the mappings and the pages withdrawn, once the first `n`
    /// mappings have been considered for a seal.
    pub open spec fn writers_dropped(
        self,
        o: int,
        generation: u32,
        cpu: int,
        n: nat,
    ) -> (MachineModel, u32, u32)
        decreases n,
    {
        if n == 0 {
            (self, 0, 0)
        } else {
            let (before, maps, pages) = self.writers_dropped(o, generation, cpu, (n - 1) as nat);
            if before.is_writer(n - 1, o, generation) {
                let (after, removed) = before.map_dropped(n - 1, cpu);
                (after, one_more(maps), scope::plus(pages, removed))
            } else {
                (before, maps, pages)
            }
        }
    }

    /// The machine with a memory object that accepts no new writer.
    pub open spec fn sealing(self, o: int) -> MachineModel {
        self.with_memory(o, MemoryObject { state: State::Sealing, ..self.memories[o] })
    }
}

/// The processors that may still hold a translation of an object's pages.
fn holders(machine: &Machine, object: &MemoryObject, domain: u16, cpu: usize) -> (set: [bool;
    MAX_CPUS])
    requires
        machine.wf(),
    ensures
        set@ == machine@.holders(*object, domain as int, cpu as int),
{
    let mut set: [bool; MAX_CPUS] = [false; MAX_CPUS];
    for c in 0..MAX_CPUS
        invariant
            machine.wf(),
            forall|k: int|
                0 <= k < c ==> #[trigger] set@[k] == machine@.holders(
                    *object,
                    domain as int,
                    cpu as int,
                )[k],
    {
        let there = match machine.cpu(c).space {
            Some(d) => d == domain,
            None => false,
        };
        set[c] = object.unmapped_cpus[c] || c != cpu && there;
    }
    assert(set@ =~= machine@.holders(*object, domain as int, cpu as int));
    set
}

/// Withdraws one mapping and names the object to collect, without collecting
/// it.
///
/// For the caller that is about to wait for the invalidation it just published:
/// collecting after the acknowledgement puts the frames straight back in the
/// pool.
#[verifier::spinoff_prover]
#[verifier::rlimit(40)]
pub fn withdraw_map_deferring(machine: &mut Machine, i: usize, cpu: usize) -> (answer: (u32, Option<
    usize,
>))
    requires
        old(machine).wf(),
        i < MAX_MAPS,
    ensures
        final(machine).wf(),
        (final(machine)@, answer.0) == old(machine)@.map_withdrawn(i as int, cpu as int),
        ({
            let record = old(machine)@.maps[i as int];
            answer.1 == if record.used && old(machine)@.same_object(record) {
                Some(record.memory as usize)
            } else {
                None
            }
        }),
        answer.1 matches Some(o) ==> o < MAX_MEMORY_OBJECTS,
{
    let record = machine.map(i);
    if !record.used {
        return (0, None);
    }
    let d: usize = record.domain as usize;
    let o: usize = record.memory as usize;
    let mut removed: u32 = 0;
    proof {
        if machine@.domains[d as int].space is Some {
            unmapping_keeps_tables(
                machine@,
                machine@.root_of(d as int),
                record.vaddr,
                record.pages as nat,
            );
        }
    }
    proof {
        machine.wf_sized();
        if machine@.domains[d as int].space is Some {
            machine.unmapped_range_is_bare(d as int, record.vaddr, record.pages);
        }
    }
    if machine.domain(d).space.is_some() {
        removed = machine.unmap_pages(d, record.vaddr, record.pages);
    }
    proof {
        machine.wf_sized();
        machine.wf_stands();
        let now = machine@.backing();
        now.mappings_are_counted(o as int);
        assert(now.range_is_bare(d as int, record.vaddr, record.pages));
        assert(now.loses_map(i as int));
        now.with_map(i as int, MapRecord::empty_spec()).stands_with_map(
            now,
            i as int,
            MapRecord::empty_spec(),
        );
        count_changes(machine@.maps, i as int, MapRecord::empty_spec(), o as int);
    }
    machine.set_map(i, MapRecord::empty());
    // The record names its object by table slot, and a slot is reused: the
    // generation says whether it still names the object the mapping was made of.
    let object = machine.memory(o);
    let same = object.generation == record.memory_generation;
    if same {
        machine.set_memory(
            o,
            MemoryObject {
                map_count: object.map_count.saturating_sub(1),
                writable_maps: if record.rights & right::MEMORY_WRITE != 0 {
                    object.writable_maps.saturating_sub(1)
                } else {
                    object.writable_maps
                },
                ..object
            },
        );
    }
    let s: usize = record.scope as usize;
    let node = machine.scope(s);
    machine.set_scope(s, Scope { maps_pending: node.maps_pending.saturating_sub(1), ..node });
    machine.uncharge(record.scope, Resource::Metadata, 1);
    if record.grant != NO_GRANT {
        hold_grant(machine, record.grant, false);
        collect_grant(machine, record.grant);
    }
    if removed != 0 {
        let published: u64 = machine.publish();
        if same {
            let object = machine.memory(o);
            let set = holders(machine, &object, record.domain, cpu);
            proof {
                array_of_elements(set);
            }
            machine.set_memory(
                o,
                MemoryObject { unmapped_at: published, unmapped_cpus: set, ..object },
            );
        }
    }
    (
        removed,
        if same {
            Some(o)
        } else {
            None
        },
    )
}

/// Unmapping pages changes no table but the translations.
pub proof fn unmapping_keeps_tables(m: MachineModel, root: int, vaddr: u64, n: nat)
    ensures
        m.unmap_pages(root, vaddr, n).0 == (MachineModel {
            pages: m.unmap_pages(root, vaddr, n).0.pages,
            ..m
        }),
    decreases n,
{
    if n > 0 {
        unmapping_keeps_tables(m, root, vaddr, (n - 1) as nat);
    }
}

/// Withdraws one mapping, publishes its invalidation and collects the object it
/// was made of if nothing else reaches it; returns the pages removed.
pub fn withdraw_map(machine: &mut Machine, i: usize, cpu: usize) -> (removed: u32)
    requires
        old(machine).wf(),
        i < MAX_MAPS,
    ensures
        final(machine).wf(),
        (final(machine)@, removed) == old(machine)@.map_dropped(i as int, cpu as int),
{
    let (removed, memory) = withdraw_map_deferring(machine, i, cpu);
    match memory {
        Some(o) => {
            collect_memory(machine, o);
        },
        None => {},
    }
    removed
}

/// How far a seal has come.
#[derive(Clone, Copy, Debug)]
pub enum Sealing {
    /// The object was sealed before.
    Sealed(MemoryInfo),
    /// Its writers are withdrawn, and processors have to acknowledge.
    Withdrawn(Writers),
}

/// Writers that a seal withdrew.
#[derive(Clone, Copy, Debug, PartialEq, Eq, Structural)]
pub struct Writers {
    /// The object.
    pub memory: u16,
    /// Its generation.
    pub generation: u32,
    /// Mappings withdrawn.
    pub maps: u32,
    /// Pages removed.
    pub pages: u32,
}

impl MachineModel {
    /// What the first step of a seal comes to.
    pub open spec fn seal_begun(self, ctx: Ctx, now: u64, cpu: int) -> (MachineModel, Result<
        Sealing,
        Status,
    >) {
        match self.resolved(
            ctx.domain as int,
            ctx.handle,
            object_type::MEMORY,
            right::MEMORY_SEAL,
            now,
        ) {
            Err(code) => (self, Err(code)),
            Ok(cap) => {
                let o = cap.object.index as int;
                let object = self.memories[o];
                if object.state == State::Sealed {
                    (self, Ok(Sealing::Sealed(self.memory_info(o))))
                } else if object.dma_grants != 0 {
                    (self, Err(Status::StateConflict))
                } else {
                    let (after, maps, pages) = self.sealing(o).writers_dropped(
                        o,
                        object.generation,
                        cpu,
                        MAX_MAPS as nat,
                    );
                    (
                        after,
                        Ok(
                            Sealing::Withdrawn(
                                Writers {
                                    memory: o as u16,
                                    generation: object.generation,
                                    maps,
                                    pages,
                                },
                            ),
                        ),
                    )
                }
            },
        }
    }

    /// Why a seal is not published, or nothing when it is.
    pub open spec fn seal_fault(self, o: int, generation: u32, acknowledged: bool) -> Option<
        Status,
    > {
        let object = self.memories[o];
        if object.generation != generation || object.state == State::Empty {
            Some(Status::PeerDead)
        } else if object.writable_maps != 0 {
            Some(Status::StateConflict)
        } else if !acknowledged {
            Some(Status::DrainIncomplete)
        } else {
            None
        }
    }
}

/// Refuses new writers and withdraws the existing ones.
///
/// Admission of writers closes first, so no new alias can appear behind the
/// withdrawal. A device that can reach the pages is a writer page tables cannot
/// withdraw, so it is refused.
pub fn begin_seal(machine: &mut Machine, ctx: &Ctx, now: u64, cpu: usize) -> (result: Result<
    Sealing,
    Status,
>)
    requires
        old(machine).wf(),
        caller_ok(*ctx),
    ensures
        final(machine).wf(),
        (final(machine)@, result) == old(machine)@.seal_begun(*ctx, now, cpu as int),
{
    let cap = match resolve(
        machine,
        ctx.domain,
        ctx.handle,
        object_type::MEMORY,
        right::MEMORY_SEAL,
        now,
    ) {
        Err(code) => {
            return Err(code);
        },
        Ok(cap) => cap,
    };
    assert(cap.object.kind == ObjKind::Memory);
    let o: usize = cap.object.index as usize;
    let object = machine.memory(o);
    if object.state == State::Sealed {
        return Ok(Sealing::Sealed(describe(machine, o)));
    }
    if object.dma_grants != 0 {
        return Err(Status::StateConflict);
    }
    machine.set_memory(o, MemoryObject { state: State::Sealing, ..object });
    let ghost first = machine@;
    let mut maps: u32 = 0;
    let mut pages: u32 = 0;
    for i in 0..MAX_MAPS
        invariant
            machine.wf(),
            (machine@, maps, pages) == first.writers_dropped(
                o as int,
                object.generation,
                cpu as int,
                i as nat,
            ),
    {
        let record = machine.map(i);
        if record.used && record.memory as usize == o && record.memory_generation
            == object.generation && record.rights & right::MEMORY_WRITE != 0 {
            let removed: u32 = withdraw_map(machine, i, cpu);
            maps = maps.saturating_add(1);
            pages = pages.saturating_add(removed);
        }
    }
    Ok(
        Sealing::Withdrawn(
            Writers { memory: o as u16, generation: object.generation, maps, pages },
        ),
    )
}

/// Publishes a seal once every processor has acknowledged that the withdrawn
/// writers are gone.
///
/// A wait that runs out of patience does not seal: the object stays where no new
/// writer can appear, and the caller is told the drain is incomplete.
pub fn finish_seal(machine: &mut Machine, o: usize, generation: u32, acknowledged: bool) -> (result:
    Result<MemoryInfo, Status>)
    requires
        old(machine).wf(),
        o < MAX_MEMORY_OBJECTS,
    ensures
        final(machine).wf(),
        final(machine).same_tables(*old(machine)),
        match old(machine)@.seal_fault(o as int, generation, acknowledged) {
            Some(code) => {
                &&& result == Err::<MemoryInfo, Status>(code)
                &&& final(machine)@ == old(machine)@
            },
            None => {
                &&& final(machine)@ == old(machine)@.with_memory(
                    o as int,
                    MemoryObject {
                        state: State::Sealed,
                        ..old(machine)@.memories[o as int]
                    },
                )
                &&& result == Ok::<MemoryInfo, Status>(final(machine)@.memory_info(o as int))
            },
        },
{
    let object = machine.memory(o);
    if object.generation != generation || object.state == State::Empty {
        return Err(Status::PeerDead);
    }
    if object.writable_maps != 0 {
        return Err(Status::StateConflict);
    }
    if !acknowledged {
        return Err(Status::DrainIncomplete);
    }
    machine.set_memory(o, MemoryObject { state: State::Sealed, ..object });
    Ok(describe(machine, o))
}

/// Processors that have a domain's address space loaded.
pub open spec fn cpus_standing(m: MachineModel, domain: int, n: int) -> nat
    decreases n,
{
    if n <= 0 {
        0
    } else if m.cpus[n - 1].space == Some(domain as u16) {
        cpus_standing(m, domain, n - 1) + 1
    } else {
        cpus_standing(m, domain, n - 1)
    }
}

/// Processors executing in a domain's address space right now.
pub fn cpus_in_space(machine: &Machine, domain: usize) -> (count: u32)
    requires
        machine.wf(),
        domain < MAX_DOMAINS,
    ensures
        count == cpus_standing(machine@, domain as int, MAX_CPUS as int),
{
    let mut count: u32 = 0;
    for c in 0..MAX_CPUS
        invariant
            machine.wf(),
            domain < MAX_DOMAINS,
            count <= c,
            count == cpus_standing(machine@, domain as int, c as int),
    {
        let there = match machine.cpu(c).space {
            Some(d) => d as usize == domain,
            None => false,
        };
        if there {
            count += 1;
        }
    }
    count
}

/// Withdrawing a mapping frees its record and no other.
pub(crate) proof fn dropping_frees_one(m: MachineModel, i: int, cpu: int)
    requires
        m.maps.len() == MAX_MAPS,
        0 <= i < MAX_MAPS,
        m.maps[i].used,
    ensures
        m.map_dropped(i, cpu).0.domains == m.domains,
        m.map_dropped(i, cpu).0.maps == m.maps.update(i, MapRecord::empty_spec()),
{
    let record = m.maps[i];
    let d = record.domain as int;
    if m.domains[d].space is Some {
        unmapping_keeps_tables(m, m.root_of(d), record.vaddr, record.pages as nat);
    }
    let (cut, removed) = m.map_cleared(i);
    assert(cut.maps == m.maps);
    let o = record.memory as int;
    let counted = if cut.same_object(record) {
        cut.with_memory(
            o,
            MemoryObject {
                map_count: one_less(cut.memories[o].map_count),
                writable_maps: if record.rights & right::MEMORY_WRITE != 0 {
                    one_less(cut.memories[o].writable_maps)
                } else {
                    cut.memories[o].writable_maps
                },
                ..cut.memories[o]
            },
        )
    } else {
        cut
    };
    let s = record.scope as int;
    let unpaid = counted.with_scope(
        s,
        Scope { maps_pending: one_less(counted.scopes[s].maps_pending), ..counted.scopes[s] },
    ).uncharge(record.scope, Resource::Metadata, 1).with_map(i, MapRecord::empty_spec());
    collecting_keeps_maps(
        unpaid.count_grant(record.grant, false),
        record.grant,
        MAX_DERIVE_DEPTH as nat,
    );
    assert(m.map_withdrawn(i, cpu).0.maps == unpaid.maps);
    assert(m.map_withdrawn(i, cpu).0.domains == m.domains);
}

proof fn collecting_keeps_maps(m: MachineModel, g: u16, steps: nat)
    ensures
        m.collect_grant(g, steps).maps == m.maps,
        m.collect_grant(g, steps).memories == m.memories,
        m.collect_grant(g, steps).domains == m.domains,
    decreases steps,
{
    if steps > 0 && g != NO_GRANT && m.is_idle_grant(g as int) {
        collecting_keeps_maps(
            m.free_grant(g as int),
            m.grants[g as int].parent,
            (steps - 1) as nat,
        );
    }
}

proof fn writers_are_gone(m: MachineModel, o: int, generation: u32, cpu: int, n: nat, i: int)
    requires
        m.maps.len() == MAX_MAPS,
        n <= MAX_MAPS,
        0 <= i < MAX_MAPS,
    ensures
        m.writers_dropped(o, generation, cpu, n).0.maps.len() == MAX_MAPS,
        i < n ==> !m.writers_dropped(o, generation, cpu, n).0.is_writer(i, o, generation),
    decreases n,
{
    if n > 0 {
        writers_are_gone(m, o, generation, cpu, (n - 1) as nat, i);
        let before = m.writers_dropped(o, generation, cpu, (n - 1) as nat).0;
        if before.is_writer(n - 1, o, generation) {
            dropping_frees_one(before, n - 1, cpu);
        }
    }
}

/// Once a seal has begun no writable mapping of the object is left.
pub proof fn sealing_leaves_no_writer(m: MachineModel, ctx: Ctx, now: u64, cpu: int, i: int)
    requires
        m.maps.len() == MAX_MAPS,
        0 <= i < MAX_MAPS,
        m.seal_begun(ctx, now, cpu).1 matches Ok(Sealing::Withdrawn(_)),
    ensures
        ({
            let (after, result) = m.seal_begun(ctx, now, cpu);
            let writers = result->Ok_0->Withdrawn_0;
            !after.is_writer(i, writers.memory as int, writers.generation)
        }),
{
    let cap = m.resolved(
        ctx.domain as int,
        ctx.handle,
        object_type::MEMORY,
        right::MEMORY_SEAL,
        now,
    )->Ok_0;
    let o = cap.object.index as int;
    writers_are_gone(
        m.sealing(o),
        o,
        m.memories[o].generation,
        cpu,
        MAX_MAPS as nat,
        i,
    );
}

/// Withdrawing a mapping leaves every object in its state, or collects it.
proof fn dropping_keeps_states(m: MachineModel, i: int, cpu: int, x: int)
    requires
        m.memories.len() == MAX_MEMORY_OBJECTS,
        0 <= x < MAX_MEMORY_OBJECTS,
        0 <= m.maps[i].memory < MAX_MEMORY_OBJECTS,
    ensures
        ({
            let after = m.map_dropped(i, cpu).0;
            &&& after.memories.len() == MAX_MEMORY_OBJECTS
            &&& after.memories[x].state == m.memories[x].state || after.memories[x].state
                == State::Empty
        }),
{
    let record = m.maps[i];
    if record.used {
        let o = record.memory as int;
        let (cut, removed) = m.map_cleared(i);
        unmapping_keeps_tables(
            m,
            m.root_of(record.domain as int),
            record.vaddr,
            record.pages as nat,
        );
        assert(cut.memories == m.memories);
        let counted = if cut.same_object(record) {
            cut.with_memory(
                o,
                MemoryObject {
                    map_count: one_less(cut.memories[o].map_count),
                    writable_maps: if record.rights & right::MEMORY_WRITE != 0 {
                        one_less(cut.memories[o].writable_maps)
                    } else {
                        cut.memories[o].writable_maps
                    },
                    ..cut.memories[o]
                },
            )
        } else {
            cut
        };
        let s = record.scope as int;
        let unpaid = counted.with_scope(
            s,
            Scope { maps_pending: one_less(counted.scopes[s].maps_pending), ..counted.scopes[s] },
        ).uncharge(record.scope, Resource::Metadata, 1).with_map(i, MapRecord::empty_spec());
        collecting_keeps_maps(
            unpaid.count_grant(record.grant, false),
            record.grant,
            MAX_DERIVE_DEPTH as nat,
        );
        let after = m.map_withdrawn(i, cpu).0;
        assert(after.memories.len() == MAX_MEMORY_OBJECTS);
        assert(after.memories[x].state == m.memories[x].state);
    }
}

proof fn sealing_keeps_states(m: MachineModel, o: int, generation: u32, cpu: int, n: nat, x: int)
    requires
        m.memories.len() == MAX_MEMORY_OBJECTS,
        m.maps.len() == MAX_MAPS,
        n <= MAX_MAPS,
        0 <= o < MAX_MEMORY_OBJECTS,
        0 <= x < MAX_MEMORY_OBJECTS,
    ensures
        ({
            let after = m.writers_dropped(o, generation, cpu, n).0;
            &&& after.memories.len() == MAX_MEMORY_OBJECTS
            &&& after.memories[x].state == m.memories[x].state || after.memories[x].state
                == State::Empty
        }),
    decreases n,
{
    if n > 0 {
        sealing_keeps_states(m, o, generation, cpu, (n - 1) as nat, x);
        let before = m.writers_dropped(o, generation, cpu, (n - 1) as nat).0;
        if before.is_writer(n - 1, o, generation) {
            dropping_keeps_states(before, n - 1, cpu, x);
        }
    }
}

/// A seal goes one way: beginning one leaves no object mutable that was sealing
/// or sealed, and one that is not drained yet stays sealing, with no writer
/// counted.
pub proof fn seals_go_one_way(m: MachineModel, ctx: Ctx, now: u64, cpu: int, x: int)
    requires
        m.sized(),
        0 <= x < MAX_MEMORY_OBJECTS,
        caller_ok(ctx),
        m.seal_begun(ctx, now, cpu).1 is Ok ==> m.resolved(
            ctx.domain as int,
            ctx.handle,
            object_type::MEMORY,
            right::MEMORY_SEAL,
            now,
        )->Ok_0.object.index < MAX_MEMORY_OBJECTS,
    ensures
        ({
            let (after, result) = m.seal_begun(ctx, now, cpu);
            &&& m.memories[x].state == State::Sealing || m.memories[x].state == State::Sealed
                ==> after.memories[x].state != State::Mutable
            &&& result matches Ok(Sealing::Withdrawn(writers)) ==> (after.seal_fault(
                writers.memory as int,
                writers.generation,
                false,
            ) == Some(Status::DrainIncomplete) ==> {
                &&& after.memories[writers.memory as int].state == State::Sealing
                &&& after.memories[writers.memory as int].writable_maps == 0
            })
        }),
{
    let (after, result) = m.seal_begun(ctx, now, cpu);
    if let Ok(Sealing::Withdrawn(writers)) = result {
        let o = writers.memory as int;
        sealing_keeps_states(m.sealing(o), o, writers.generation, cpu, MAX_MAPS as nat, x);
        sealing_keeps_states(m.sealing(o), o, writers.generation, cpu, MAX_MAPS as nat, o);
    }
}

/// What is sealed has no writer, in every state of the machine.
pub proof fn sealed_objects_have_no_writer(machine: Machine, o: int)
    requires
        machine.wf(),
        0 <= o < MAX_MEMORY_OBJECTS,
        machine@.memories[o].state == State::Sealed,
    ensures
        machine@.memories[o].writable_maps == 0,
{
    machine.memory_is_ok(o);
}

} // verus!
