//! Domain operations: build, map, install, activate, stop.
//!
//! Everything a domain will hold is installed while it is `Building`, and the
//! transition out of that state happens exactly once, through a gate that
//! re-checks every requirement. Once a domain is running, authority reaches it
//! through messages, where the transfer is admitted, reserved and recorded.

use vstd::prelude::*;

use crate::abi::request::{
    DomainCreateRequest, DomainInfo, FaultChannelRequest, InstallCapRequest, MapRequest,
    ThreadCreateRequest, UnmapRequest,
};
use crate::abi::status::Status;
use crate::abi::{object_type, right};
use crate::api::calls::caller_ok;
use crate::api::ipcops::{narrow_deadline, narrowed_deadline};
use crate::api::memops::{mapping_rights, platform_rights, withdraw_map};
use crate::api::{cap_install, ctx_ok, grant_alloc, hold_grant, mint, resolve, Ctx, Resolved};
use crate::arch::x86_64::paging::MapError;
use crate::backing::{covers, Backing};
use crate::ctrl::one_more;
use crate::domain::{
    activate_in, add_thread_in, count_threads, create_fault, create_in, created, first_kstack,
    kernel_took, stack_is_fresh, stack_is_mapped, stack_refused, terminate_in, thread_mapped,
    thread_count, CreateError, Created, PageLoad,
};
use crate::ipc::{Endpoint, NO_DOMAIN};
use crate::layout::KSTACK_PAGES;
use crate::limits::{MAX_CAPS, MAX_DOMAINS, MAX_MAPS, MAX_SCOPES, MAX_THREADS_PER_DOMAIN};
use crate::memobj::{MapRecord, MemoryObject, State as MemState};
use crate::mm::{count_use, Frame, FrameUse, Owner, Rights};
use crate::obj::{cap_at, ObjKind, ObjRef, NO_GRANT};
use crate::scope::{
    self, release_undoes_reserve, room_is_separate, room_same, room_splits, Resource, Scope,
};
use crate::spaces::{tables_grew, with_run, USER_END};
use crate::state::{map_ok, memory_ok, Domain, DomainState, ExitReason, Machine, MachineModel};

verus! {

/// Page-table pages reserved for one mapping operation.
///
/// Three levels can be created by a mapping into an untouched region, plus one
/// for the page it lands in. The difference stays reserved until the domain is
/// reclaimed, which is conservative rather than optimistic accounting.
pub const MAP_TABLE_RESERVE: u64 = 4;

/// Lowest address a domain may map.
pub const USER_START: u64 = 0x1000;

/// The first mapping record from `from` on that is free, or [`MAX_MAPS`].
pub open spec fn first_map(maps: Seq<MapRecord>, from: int) -> int
    decreases MAX_MAPS - from,
{
    if from >= MAX_MAPS {
        MAX_MAPS as int
    } else if !maps[from].used {
        from
    } else {
        first_map(maps, from + 1)
    }
}

/// What a refused mapping is answered.
pub open spec fn map_status(error: MapError) -> Status {
    match error {
        MapError::AlreadyMapped => Status::StateConflict,
        MapError::OutOfMemory => Status::LimitExhausted,
        _ => Status::InvalidArgument,
    }
}

/// A domain that may still be changed: it is under construction or runs, and
/// has an address space.
pub open spec fn is_live(domain: Domain) -> bool {
    (domain.state == DomainState::Building || domain.state == DomainState::Runnable)
        && domain.space is Some
}

impl MachineModel {
    /// The memory object a mapping is made of, or why it may not be.
    pub open spec fn map_source(self, ctx: Ctx, request: MapRequest) -> Result<Resolved, Status> {
        self.resolved(
            ctx.domain as int,
            request.memory_handle,
            object_type::MEMORY,
            right::MEMORY_MAP,
            ctx.now,
        )
    }

    /// Why a mapping is refused before anything is reserved for it, or nothing.
    ///
    /// The mapping gets the intersection of what the grant permits, what the
    /// object's maximum rights permit, and what the platform can represent.
    pub open spec fn map_fault(self, ctx: Ctx, request: MapRequest) -> Option<Status> {
        let target = self.domains[ctx.cap.object.index as int];
        if request.reserved0 != 0 || request.page_count == 0 {
            Some(Status::InvalidArgument)
        } else if !is_live(target) {
            Some(Status::StateConflict)
        } else {
            match self.map_source(ctx, request) {
                Err(code) => Some(code),
                Ok(memory) => {
                    let object = self.memories[memory.object.index as int];
                    if request.rights & !memory.rights != 0 || request.rights
                        & !object.max_rights != 0 {
                        Some(Status::InsufficientRights)
                    } else {
                        match platform_rights(request.rights) {
                            Err(code) => Some(code),
                            Ok(rights) => if rights.write && object.state != MemState::Mutable {
                                Some(Status::StateConflict)
                            } else if request.offset_pages + request.page_count > object.pages {
                                Some(Status::InvalidArgument)
                            } else if request.vaddr % 0x1000 != 0 {
                                Some(Status::InvalidArgument)
                            } else if request.vaddr < USER_START || request.vaddr
                                + request.page_count * 0x1000 > USER_END {
                                Some(Status::InvalidArgument)
                            } else if first_map(self.maps, 0) == MAX_MAPS || !self.affords(
                                target.owner_scope,
                                Resource::Metadata,
                                1,
                            ) || !self.affords(
                                target.owner_scope,
                                Resource::MemoryPages,
                                MAP_TABLE_RESERVE as int,
                            ) {
                                Some(Status::LimitExhausted)
                            } else {
                                None
                            },
                        }
                    }
                },
            }
        }
    }

    /// First frame of a mapping.
    pub open spec fn map_base(self, ctx: Ctx, request: MapRequest) -> Frame {
        let o = self.map_source(ctx, request)->Ok_0.object.index as int;
        Frame { number: (self.memories[o].base.number + request.offset_pages) as u64 }
    }

    /// The machine once a mapping has been made, what frames are used for apart.
    pub open spec fn map_made(self, ctx: Ctx, request: MapRequest) -> MachineModel {
        let d = ctx.cap.object.index as int;
        let target = self.domains[d];
        let s = target.owner_scope;
        let memory = self.map_source(ctx, request)->Ok_0;
        let o = memory.object.index as int;
        let i = first_map(self.maps, 0);
        let paid = self.charge(s, Resource::Metadata, 1).charge(
            s,
            Resource::MemoryPages,
            MAP_TABLE_RESERVE,
        );
        let mapped = MachineModel {
            pages: with_run(
                self.pages,
                self.root_of(d),
                request.vaddr,
                self.map_base(ctx, request),
                platform_rights(request.rights)->Ok_0,
                request.page_count as nat,
            ),
            ..paid
        };
        let held = mapped.with_map(
            i,
            MapRecord {
                used: true,
                memory: memory.object.index,
                memory_generation: memory.object.generation,
                domain: d as u16,
                domain_generation: target.generation,
                vaddr: request.vaddr,
                offset_pages: request.offset_pages,
                pages: request.page_count,
                rights: request.rights,
                grant: memory.grant,
                scope: s,
            },
        ).count_grant(memory.grant, true).with_domain(
            d,
            Domain {
                reserved_pages: crate::api::scopeops::sum(
                    target.reserved_pages,
                    MAP_TABLE_RESERVE,
                ),
                ..target
            },
        );
        let counted = held.with_memory(
            o,
            MemoryObject {
                map_count: one_more(held.memories[o].map_count),
                writable_maps: if request.rights & right::MEMORY_WRITE != 0 {
                    one_more(held.memories[o].writable_maps)
                } else {
                    held.memories[o].writable_maps
                },
                ..held.memories[o]
            },
        );
        counted.with_scope(
            s as int,
            Scope {
                maps_pending: one_more(counted.scopes[s as int].maps_pending),
                ..counted.scopes[s as int]
            },
        )
    }
}

/// Checks a mapping before anything is reserved for it.
fn check_map(machine: &Machine, ctx: &Ctx, request: &MapRequest) -> (result: Result<
    (Resolved, Rights),
    Status,
>)
    requires
        machine.wf(),
        ctx_ok(*ctx, ObjKind::Domain),
    ensures
        match result {
            Ok((memory, rights)) => {
                &&& machine@.map_fault(*ctx, *request) is None
                &&& machine@.map_source(*ctx, *request) == Ok::<Resolved, Status>(memory)
                &&& platform_rights(request.rights) == Ok::<Rights, Status>(rights)
                &&& rights.fault() is None
                &&& memory.object.kind == ObjKind::Memory
                &&& crate::api::cap_named_ok(memory)
            },
            Err(code) => machine@.map_fault(*ctx, *request) == Some(code),
        },
{
    if request.reserved0 != 0 || request.page_count == 0 {
        return Err(Status::InvalidArgument);
    }
    let target = machine.domain(ctx.cap.object.index as usize);
    if target.state != DomainState::Building && target.state != DomainState::Runnable
        || target.space.is_none() {
        return Err(Status::StateConflict);
    }
    let memory = match resolve(
        machine,
        ctx.domain,
        request.memory_handle,
        object_type::MEMORY,
        right::MEMORY_MAP,
        ctx.now,
    ) {
        Err(code) => {
            return Err(code);
        },
        Ok(memory) => memory,
    };
    assert(memory.object.kind == ObjKind::Memory);
    let object = machine.memory(memory.object.index as usize);
    if request.rights & !memory.rights != 0 || request.rights & !object.max_rights != 0 {
        return Err(Status::InsufficientRights);
    }
    let rights = match mapping_rights(request.rights) {
        Err(code) => {
            return Err(code);
        },
        Ok(rights) => rights,
    };
    if rights.write && object.state != MemState::Mutable {
        return Err(Status::StateConflict);
    }
    if request.offset_pages as u64 + request.page_count as u64 > object.pages as u64 {
        return Err(Status::InvalidArgument);
    }
    if request.vaddr % 0x1000 != 0 {
        return Err(Status::InvalidArgument);
    }
    let bytes: u64 = request.page_count as u64 * 0x1000;
    if request.vaddr < USER_START || request.vaddr > USER_END || bytes > USER_END
        - request.vaddr {
        return Err(Status::InvalidArgument);
    }
    if find_map(machine) == MAX_MAPS || !machine.affords(
        target.owner_scope,
        Resource::Metadata,
        1,
    ) || !machine.affords(target.owner_scope, Resource::MemoryPages, MAP_TABLE_RESERVE) {
        return Err(Status::LimitExhausted);
    }
    Ok((memory, rights))
}

/// Finds the first mapping record that is free.
fn find_map(machine: &Machine) -> (i: usize)
    requires
        machine.wf(),
    ensures
        i == first_map(machine@.maps, 0),
        i <= MAX_MAPS,
        i < MAX_MAPS ==> !machine@.maps[i as int].used,
{
    let mut i: usize = 0;
    while i < MAX_MAPS && machine.map(i).used
        invariant
            machine.wf(),
            i <= MAX_MAPS,
            first_map(machine@.maps, 0) == first_map(machine@.maps, i as int),
        decreases MAX_MAPS - i,
    {
        i += 1;
    }
    i
}

impl MachineModel {
    /// The machine with one mapping more, which its object counts.
    pub open spec fn map_entered(self, i: int, record: MapRecord) -> MachineModel {
        let o = record.memory as int;
        let object = self.memories[o];
        self.with_memory(
            o,
            MemoryObject {
                map_count: one_more(object.map_count),
                writable_maps: if record.rights & right::MEMORY_WRITE != 0 {
                    one_more(object.writable_maps)
                } else {
                    object.writable_maps
                },
                ..object
            },
        ).with_map(i, record)
    }
}

/// Records a mapping whose pages are yet to come.
fn enter_map(machine: &mut Machine, i: usize, record: MapRecord)
    requires
        old(machine).wf(),
        i < MAX_MAPS,
        map_ok(record),
        record.used,
        !old(machine)@.maps[i as int].used,
        old(machine)@.backing().map_is_live(record),
        old(machine)@.memories[record.memory as int].state == MemState::Sealed ==> record.rights
            & right::MEMORY_WRITE == 0,
    ensures
        final(machine).wf(),
        final(machine).same_tables(*old(machine)),
        final(machine)@ == old(machine)@.map_entered(i as int, record),
{
    let o: usize = record.memory as usize;
    let object = machine.memory(o);
    proof {
        machine.wf_sized();
        machine.wf_stands();
        machine@.backing().mappings_are_counted(o as int);
    }
    machine.set_memory(
        o,
        MemoryObject {
            map_count: object.map_count.saturating_add(1),
            writable_maps: if record.rights & right::MEMORY_WRITE != 0 {
                object.writable_maps.saturating_add(1)
            } else {
                object.writable_maps
            },
            ..object
        },
    );
    proof {
        machine.wf_sized();
        machine.wf_stands();
        let now = machine@.backing();
        assert(now.takes_map(i as int, record));
        now.with_map(i as int, record).stands_with_map(now, i as int, record);
    }
    machine.set_map(i, record);
}

/// Takes a mapping back none of whose pages was made.
fn leave_map(
    machine: &mut Machine,
    i: usize,
    former: MapRecord,
    object: MemoryObject,
    record: MapRecord,
    Ghost(was): Ghost<MachineModel>,
)
    requires
        old(machine).wf(),
        i < MAX_MAPS,
        map_ok(record),
        map_ok(former),
        memory_ok(object),
        was.sized(),
        was.backing().stands(),
        former == was.maps[i as int],
        object == was.memories[record.memory as int],
        tables_grew(was.uses, old(machine)@.uses, Owner::Domain(record.domain)),
        old(machine)@ == (MachineModel {
            uses: old(machine)@.uses,
            ..was.map_entered(i as int, record)
        }),
    ensures
        final(machine).wf(),
        final(machine).same_tables(*old(machine)),
        final(machine)@ == (MachineModel { uses: old(machine)@.uses, ..was }),
{
    let o: usize = record.memory as usize;
    let ghost entered = machine@;
    proof {
        let now = entered.backing().with_map(i as int, former);
        let then = Backing { memories: entered.memories, ..was.backing() };
        then.stands_with_memory(was.backing(), o as int, entered.memories[o as int]);
        assert(now.maps =~= was.maps);
        assert forall|d: int, f: int|
            0 <= d < now.domains.len() && now.domains[d].space is Some && #[trigger] then.holds(
                d,
                f,
            ) implies now.holds(d, f) by {
            assert(now.uses[f] == then.uses[f]);
        }
        now.stands_on(then);
        was.backing().mappings_are_counted(o as int);
    }
    machine.set_map(i, former);
    machine.set_memory(o, object);
    proof {
        assert(machine@.maps =~= was.maps);
        assert(machine@.memories =~= was.memories);
        assert(machine@ =~= (MachineModel { uses: entered.uses, ..was }));
    }
}

/// Installs a mapping of a memory object in the addressed domain; returns the
/// pages it has.
#[verifier::spinoff_prover]
#[verifier::rlimit(40)]
pub fn map(machine: &mut Machine, ctx: &Ctx, request: &MapRequest) -> (result: Result<u64, Status>)
    requires
        old(machine).wf(),
        ctx_ok(*ctx, ObjKind::Domain),
    ensures
        final(machine).wf(),
        match old(machine)@.map_fault(*ctx, *request) {
            Some(code) => {
                &&& result == Err::<u64, Status>(code)
                &&& final(machine)@ == old(machine)@
            },
            None => {
                let d = ctx.cap.object.index;
                &&& tables_grew(
                    old(machine)@.uses,
                    final(machine)@.uses,
                    Owner::Domain(d),
                )
                &&& match result {
                    Ok(pages) => {
                        &&& pages == request.page_count
                        &&& final(machine).pages_are_open(d as int)
                        &&& old(machine)@.is_clear(
                            old(machine)@.root_of(d as int),
                            request.vaddr,
                            request.page_count as int,
                        )
                        &&& final(machine)@ == (MachineModel {
                            uses: final(machine)@.uses,
                            ..old(machine)@.map_made(*ctx, *request)
                        })
                    },
                    Err(code) => {
                        &&& final(machine)@ == (MachineModel {
                            uses: final(machine)@.uses,
                            ..old(machine)@
                        })
                        &&& map_refused(*old(machine), *ctx, *request, code)
                    },
                }
            },
        },
{
    let (memory, rights): (Resolved, Rights) = match check_map(machine, ctx, request) {
        Err(code) => {
            return Err(code);
        },
        Ok(checked) => checked,
    };
    let d: usize = ctx.cap.object.index as usize;
    let i: usize = find_map(machine);
    let target = machine.domain(d);
    let s: u16 = target.owner_scope;
    let o: usize = memory.object.index as usize;
    let object = machine.memory(o);
    let ghost m = machine@;
    proof {
        machine.wf_scopes();
        machine.wf_sized();
        room_is_separate(
            m.scopes,
            s as int,
            Resource::MemoryPages,
            MAP_TABLE_RESERVE as int,
            s as int,
            Resource::Metadata,
            1,
        );
    }
    machine.charge(s, Resource::Metadata, 1);
    let ghost paid = machine@;
    machine.charge(s, Resource::MemoryPages, MAP_TABLE_RESERVE);
    let ghost charged = *machine;
    let base = Frame { number: object.base.number + request.offset_pages as u64 };
    let former = machine.map(i);
    let record = MapRecord {
        used: true,
        memory: memory.object.index,
        memory_generation: memory.object.generation,
        domain: d as u16,
        domain_generation: target.generation,
        vaddr: request.vaddr,
        offset_pages: request.offset_pages,
        pages: request.page_count,
        rights: request.rights,
        grant: memory.grant,
        scope: s,
    };
    enter_map(machine, i, record);
    let ghost entered = *machine;
    proof {
        charged.wf_stands();
        charged.wf_sized();
        assert forall|w: u64| covers(request.vaddr, request.page_count, w) implies
            #[trigger] machine@.backing().run_backs(
            d as int,
            request.vaddr,
            base.number as int,
            w,
        ) by {
            assert(machine@.backing().map_backs(
                i as int,
                d as int,
                w,
                base.number + (w - request.vaddr) / 0x1000,
            ));
        }
    }
    match machine.map_pages(d, request.vaddr, base, rights, request.page_count) {
        Err(error) => {
            leave_map(machine, i, former, object, record, Ghost(charged@));
            proof {
                scope::charged_keeps_tree(m.scopes, s as int, Resource::Metadata, 1);
                release_undoes_reserve(
                    paid.scopes,
                    s as int,
                    Resource::MemoryPages,
                    MAP_TABLE_RESERVE,
                );
                release_undoes_reserve(m.scopes, s as int, Resource::Metadata, 1);
            }
            machine.uncharge(s, Resource::MemoryPages, MAP_TABLE_RESERVE);
            machine.uncharge(s, Resource::Metadata, 1);
            let code = match error {
                MapError::AlreadyMapped => Status::StateConflict,
                MapError::OutOfMemory => Status::LimitExhausted,
                _ => Status::InvalidArgument,
            };
            proof {
                assert(machine@ =~= (MachineModel { uses: machine@.uses, ..m }));
                assert(entered.run_refused(
                    d as int,
                    request.vaddr,
                    base,
                    rights,
                    request.page_count as int,
                    error,
                ));
                assert(entered@.scopes == m.charge(s, Resource::Metadata, 1).charge(
                    s,
                    Resource::MemoryPages,
                    MAP_TABLE_RESERVE,
                ).scopes);
                assert(map_refused(*old(machine), *ctx, *request, code));
            }
            return Err(code);
        },
        Ok(()) => {},
    }
    // Holding a reference keeps the grant's slot from being reused under the
    // record while the mapping stands.
    hold_grant(machine, memory.grant, true);
    machine.set_domain(
        d,
        Domain {
            reserved_pages: target.reserved_pages.saturating_add(MAP_TABLE_RESERVE),
            ..target
        },
    );
    let node = machine.scope(s as usize);
    machine.set_scope(
        s as usize,
        Scope { maps_pending: node.maps_pending.saturating_add(1), ..node },
    );
    proof {
        machine.every_page_is_open(d as int);
    }
    Ok(request.page_count as u64)
}

/// The page tables refused a mapping that nothing else stood against: some page
/// of the range is taken, or frames for tables are missing.
pub open spec fn map_refused(machine: Machine, ctx: Ctx, request: MapRequest, code: Status) -> bool {
    let d = ctx.cap.object.index as int;
    let s = machine@.domains[d].owner_scope;
    let paid = machine@.charge(s, Resource::Metadata, 1).charge(
        s,
        Resource::MemoryPages,
        MAP_TABLE_RESERVE,
    );
    exists|charged: Machine, error: MapError|
        {
            &&& charged@ == (MachineModel {
                maps: charged@.maps,
                memories: charged@.memories,
                ..paid
            })
            &&& charged.same_tables(machine)
            &&& code == map_status(error)
            &&& #[trigger] charged.run_refused(
                d,
                request.vaddr,
                machine@.map_base(ctx, request),
                platform_rights(request.rights)->Ok_0,
                request.page_count as int,
                error,
            )
        }
}

impl MachineModel {
    /// The mapping of a domain that a request names.
    pub open spec fn is_named_map(self, i: int, d: int, request: UnmapRequest) -> bool {
        let record = self.maps[i];
        &&& record.used
        &&& record.domain == d
        &&& record.domain_generation == self.domains[d].generation
        &&& record.vaddr == request.vaddr
        &&& record.pages == request.page_count
    }

    /// The first mapping from `from` on that a request names, or [`MAX_MAPS`].
    pub open spec fn named_map(self, from: int, d: int, request: UnmapRequest) -> int
        decreases MAX_MAPS - from,
    {
        if from >= MAX_MAPS {
            MAX_MAPS as int
        } else if self.is_named_map(from, d, request) {
            from
        } else {
            self.named_map(from + 1, d, request)
        }
    }

    /// What the first step of an unmapping comes to.
    pub open spec fn unmap_begun(
        self,
        ctx: Ctx,
        request: UnmapRequest,
        now: u64,
        cpu: int,
    ) -> (MachineModel, Result<u32, Status>) {
        if request.reserved0 != 0 {
            (self, Err(Status::InvalidArgument))
        } else {
            match self.resolved(
                ctx.domain as int,
                ctx.handle,
                object_type::DOMAIN,
                right::DOMAIN_BUILD,
                now,
            ) {
                Err(code) => (self, Err(code)),
                Ok(cap) => {
                    let i = self.named_map(0, cap.object.index as int, request);
                    if i == MAX_MAPS {
                        (self, Err(Status::InvalidArgument))
                    } else {
                        let (after, pages) = self.map_dropped(i, cpu);
                        (after, Ok(pages))
                    }
                },
            }
        }
    }
}

/// Withdraws a mapping and its translations; returns the pages removed.
///
/// Taking authority over a page back means nothing while another processor still
/// holds the translation: the answer, [`finish_unmap`], waits for every
/// processor to acknowledge.
pub fn begin_unmap(
    machine: &mut Machine,
    ctx: &Ctx,
    request: &UnmapRequest,
    now: u64,
    cpu: usize,
) -> (result: Result<u32, Status>)
    requires
        old(machine).wf(),
        caller_ok(*ctx),
    ensures
        final(machine).wf(),
        (final(machine)@, result) == old(machine)@.unmap_begun(*ctx, *request, now, cpu as int),
{
    if request.reserved0 != 0 {
        return Err(Status::InvalidArgument);
    }
    let cap = match resolve(
        machine,
        ctx.domain,
        ctx.handle,
        object_type::DOMAIN,
        right::DOMAIN_BUILD,
        now,
    ) {
        Err(code) => {
            return Err(code);
        },
        Ok(cap) => cap,
    };
    assert(cap.object.kind == ObjKind::Domain);
    let d: usize = cap.object.index as usize;
    let generation: u32 = machine.domain(d).generation;
    for i in 0..MAX_MAPS
        invariant
            *machine == *old(machine),
            machine.wf(),
            d == cap.object.index,
            d < MAX_DOMAINS,
            generation == machine@.domains[d as int].generation,
            request.reserved0 == 0,
            machine@.resolved(
                ctx.domain as int,
                ctx.handle,
                object_type::DOMAIN,
                right::DOMAIN_BUILD,
                now,
            ) == Ok::<Resolved, Status>(cap),
            machine@.named_map(0, d as int, *request) == machine@.named_map(
                i as int,
                d as int,
                *request,
            ),
    {
        let record = machine.map(i);
        if record.used && record.domain as usize == d && record.domain_generation == generation
            && record.vaddr == request.vaddr && record.pages == request.page_count {
            let pages: u32 = withdraw_map(machine, i, cpu);
            return Ok(pages);
        }
    }
    Err(Status::InvalidArgument)
}

/// The answer to an unmapping: the mapping is gone from the tables either way,
/// but the caller is not told that the withdrawal is complete when it has not
/// been observed to be.
pub fn finish_unmap(pages: u32, acknowledged: bool) -> (result: Result<u64, Status>)
    ensures
        result == if acknowledged {
            Ok::<u64, Status>(pages as u64)
        } else {
            Err::<u64, Status>(Status::DrainIncomplete)
        },
{
    if acknowledged {
        Ok(pages as u64)
    } else {
        Err(Status::DrainIncomplete)
    }
}

/// A byte that is printed as a mark of its own.
pub open spec fn is_graphic(byte: u8) -> bool {
    0x21 <= byte <= 0x7E
}

/// How many bytes of a requested name are kept: those before the first that is
/// not graphic.
pub open spec fn name_length(name: Seq<u8>, from: int) -> int
    decreases name.len() - from,
{
    if from >= name.len() {
        name.len() as int
    } else if !is_graphic(name[from]) {
        from
    } else {
        name_length(name, from + 1)
    }
}

/// The name of a domain as it is kept.
fn kept_name(name: &[u8; 16]) -> (kept: Vec<u8>)
    ensures
        kept@ == name@.take(name_length(name@, 0)),
{
    let mut kept: Vec<u8> = Vec::new();
    for i in 0..16usize
        invariant
            kept@ == name@.take(i as int),
            name_length(name@, 0) == name_length(name@, i as int),
            i <= 16,
    {
        let byte: u8 = name[i];
        if byte < 0x21 || byte > 0x7E {
            return kept;
        }
        kept.push(byte);
        assert(kept@ =~= name@.take(i + 1));
    }
    kept
}

/// What a domain that could not be created is answered.
pub open spec fn create_status(error: CreateError) -> Status {
    match error {
        CreateError::LimitExhausted => Status::LimitExhausted,
        CreateError::DomainTableFull => Status::LimitExhausted,
        CreateError::ThreadTableFull => Status::LimitExhausted,
        CreateError::KernelStackExhausted => Status::LimitExhausted,
        CreateError::OutOfMemory => Status::LimitExhausted,
        CreateError::ScopeClosed => Status::ScopeClosed,
        _ => Status::InvalidArgument,
    }
}

fn status_of_create(error: CreateError) -> (code: Status)
    ensures
        code == create_status(error),
{
    match error {
        CreateError::LimitExhausted => Status::LimitExhausted,
        CreateError::DomainTableFull => Status::LimitExhausted,
        CreateError::ThreadTableFull => Status::LimitExhausted,
        CreateError::KernelStackExhausted => Status::LimitExhausted,
        CreateError::OutOfMemory => Status::LimitExhausted,
        CreateError::ScopeClosed => Status::ScopeClosed,
        _ => Status::InvalidArgument,
    }
}

/// A handle on a new domain, and the bytes of its image to copy to its frames.
pub struct NewDomain {
    /// The handle.
    pub handle: u64,
    /// Its slot.
    pub index: usize,
    /// The bytes to copy, one entry per page.
    pub loads: Vec<PageLoad>,
}

/// What creating a domain for another comes to, once slot `d` is free in `mid`.
pub open spec fn domain_made(
    d: int,
    mid: Machine,
    ctx: Ctx,
    name: Seq<u8>,
    image: Seq<u8>,
    after: Machine,
    result: Result<NewDomain, Status>,
) -> bool {
    let scope = ctx.cap.object.index;
    exists|made: Machine, outcome: Result<Created, CreateError>|
        {
            &&& #[trigger] created(
                mid,
                d,
                name,
                image,
                scope,
                true,
                Some(ctx.domain),
                made,
                outcome,
            )
            &&& match outcome {
                Err(e) => result matches Err(code) && code == create_status(e) && after@ == made@,
                Ok(new) => {
                    let generation = made@.domains[d].generation;
                    &&& result matches Ok(answer) && {
                        &&& answer.handle == made@.minted_handle(ctx.domain as int)
                        &&& answer.index == d
                        &&& answer.loads@ == new.loads@
                    }
                    &&& after@ == made@.owned(
                        ctx.domain as int,
                        ObjRef { kind: ObjKind::Domain, index: d as u16, generation },
                        ObjKind::Domain.mask_spec(),
                    )
                },
            }
        }
}

/// The slot a new domain takes is one of the table's.
proof fn slot_is_free(m: MachineModel)
    requires
        m.sized(),
    ensures
        m.domain_slot().1 <= MAX_DOMAINS,
        0 <= m.domain_slot().1,
        m.domain_slot().1 < MAX_DOMAINS ==> {
            let state = m.domains[m.domain_slot().1].state;
            state == DomainState::Empty || state == DomainState::Dead
        },
{
    domain_in_range(m.domains, 0);
    spent_in_range(m.domains, 0);
}

proof fn domain_in_range(domains: Seq<Domain>, from: int)
    requires
        0 <= from <= MAX_DOMAINS,
    ensures
        from <= crate::domain::first_domain(domains, from) <= MAX_DOMAINS,
        crate::domain::first_domain(domains, from) < MAX_DOMAINS
            ==> domains[crate::domain::first_domain(domains, from)].state == DomainState::Empty,
    decreases MAX_DOMAINS - from,
{
    if from < MAX_DOMAINS {
        domain_in_range(domains, from + 1);
    }
}

proof fn spent_in_range(domains: Seq<Domain>, from: int)
    requires
        0 <= from <= MAX_DOMAINS,
    ensures
        from <= crate::domain::first_spent(domains, from) <= MAX_DOMAINS,
        crate::domain::first_spent(domains, from) < MAX_DOMAINS
            ==> domains[crate::domain::first_spent(domains, from)].state == DomainState::Dead,
    decreases MAX_DOMAINS - from,
{
    if from < MAX_DOMAINS {
        spent_in_range(domains, from + 1);
    }
}

/// The room for a handle that was made sure of before a domain was built is
/// still there afterwards.
proof fn handle_still_fits(
    mid: Machine,
    d: int,
    name: Seq<u8>,
    image: Seq<u8>,
    scope: u16,
    c: usize,
    made: Machine,
    outcome: Result<Created, CreateError>,
)
    requires
        mid.wf(),
        made.wf(),
        0 <= d < MAX_DOMAINS,
        c < MAX_DOMAINS,
        c != d,
        scope < MAX_SCOPES,
        created(mid, d, name, image, scope, true, Some(c), made, outcome),
        outcome is Ok,
    ensures
        made@.can_mint(c as int, NO_GRANT),
        (outcome->Ok_0).index == d,
{
    mid.wf_sized();
    mid.wf_scopes();
    made.wf_sized();
    made.wf_scopes();
    let segments = crate::elf::judge(image)->Ok_0;
    let pages = crate::elf::footprint(segments) as u64;
    let paid = mid@.build_charged(scope, pages);
    let owner = paid.domains[c as int].owner_scope;
    assert(made@.domains[c as int] == paid.domains[c as int]);
    scope::charged_keeps_tree(
        mid@.scopes,
        scope as int,
        Resource::MemoryPages,
        crate::domain::build_pages(pages) as int,
    );
    let one = mid@.charge(scope, Resource::MemoryPages, crate::domain::build_pages(pages));
    scope::charged_keeps_tree(one.scopes, scope as int, Resource::Metadata, 2);
    mid.domain_is_ok(c);
    room_same(paid.scopes, made@.scopes, owner as int, Resource::Metadata, 1);
    room_same(paid.scopes, made@.scopes, owner as int, Resource::Metadata, 2);
}

/// Builds a domain from an image object, charged to the addressed scope; `image`
/// is what the object holds.
///
/// The room for the caller's handle is made sure of before anything is built, so
/// no domain is left that nobody can name.
#[verifier::spinoff_prover]
#[verifier::rlimit(40)]
pub fn create(machine: &mut Machine, ctx: &Ctx, request: &DomainCreateRequest, image: &[u8]) -> (
    result: Result<NewDomain, Status>)
    requires
        old(machine).wf(),
        old(machine)@.kernel_space is Some,
        ctx_ok(*ctx, ObjKind::Scope),
        old(machine)@.domains[ctx.domain as int].state == DomainState::Runnable,
        image@.len() <= usize::MAX,
    ensures
        final(machine).wf(),
        ({
            let m = old(machine)@;
            let name = request.name@.take(name_length(request.name@, 0));
            match m.resolved(
                ctx.domain as int,
                request.image_handle,
                object_type::MEMORY,
                right::MEMORY_READ,
                ctx.now,
            ) {
                Err(code) => {
                    &&& result matches Err(c) && c == code
                    &&& final(machine)@ == m
                },
                Ok(_) => match create_fault(m, image@, ctx.cap.object.index) {
                    Some(e) => {
                        &&& result matches Err(c) && c == create_status(e)
                        &&& final(machine)@ == m
                    },
                    None => if m.domain_slot().1 == MAX_DOMAINS {
                        &&& result matches Err(c) && c == Status::LimitExhausted
                        &&& final(machine)@ == m
                    } else {
                        exists|mid: Machine|
                            mid@ == m.domain_slot().0 && mid.same_tables(*old(machine))
                                && #[trigger] domain_made(
                                m.domain_slot().1,
                                mid,
                                *ctx,
                                name,
                                image@,
                                *final(machine),
                                result,
                            )
                    },
                },
            }
        }),
{
    match resolve(
        machine,
        ctx.domain,
        request.image_handle,
        object_type::MEMORY,
        right::MEMORY_READ,
        ctx.now,
    ) {
        Err(code) => {
            return Err(code);
        },
        Ok(_) => {},
    }
    let name = kept_name(&request.name);
    let scope: u16 = ctx.cap.object.index;
    let ghost first = *machine;
    let outcome = create_in(machine, name.as_slice(), image, scope, true, Some(ctx.domain));
    let ghost made = *machine;
    let ghost d = first@.domain_slot().1;
    let ghost mid = choose|mid: Machine|
        mid.wf() && mid@ == first@.domain_slot().0 && mid.same_tables(first) && #[trigger] created(
            mid,
            d,
            name@,
            image@,
            scope,
            true,
            Some(ctx.domain),
            made,
            outcome,
        );
    match outcome {
        Err(error) => {
            let code = status_of_create(error);
            proof {
                if create_fault(first@, image@, scope) is None && d != MAX_DOMAINS {
                    assert(domain_made(
                        d,
                        mid,
                        *ctx,
                        name@,
                        image@,
                        *machine,
                        Err(code),
                    ));
                }
            }
            Err(code)
        },
        Ok(new) => {
            proof {
                machine.wf_sized();
                first.wf_sized();
                slot_is_free(first@);
                handle_still_fits(
                    mid,
                    d,
                    name@,
                    image@,
                    scope,
                    ctx.domain,
                    made,
                    Ok(new),
                );
            }
            let generation: u32 = machine.domain(new.index).generation;
            let object = ObjRef { kind: ObjKind::Domain, index: new.index as u16, generation };
            match mint(
                machine,
                ctx.domain,
                NO_GRANT,
                object,
                ObjKind::Domain.rights_mask(),
                0,
                None,
                0,
            ) {
                None => Err(Status::LimitExhausted),
                Some(handle) => {
                    let answer = NewDomain { handle, index: new.index, loads: new.loads };
                    assert(domain_made(d, mid, *ctx, name@, image@, *machine, Ok(answer)));
                    Ok(answer)
                },
            }
        },
    }
}

impl MachineModel {
    /// The capability to install, or why it may not be given.
    pub open spec fn install_source(self, ctx: Ctx, request: InstallCapRequest) -> Result<
        Resolved,
        Status,
    > {
        self.resolved(
            ctx.domain as int,
            request.source_handle,
            object_type::NONE,
            right::TRANSFER,
            ctx.now,
        )
    }

    /// The rights an installed capability has.
    pub open spec fn installed_rights(self, request: InstallCapRequest, source: Resolved) -> u32 {
        if is_copy(request) {
            self.grants[source.grant as int].rights
        } else {
            request.rights_mask
        }
    }

    /// Another domain receives on an endpoint already.
    pub open spec fn is_taken(self, e: int, target: int) -> bool {
        let current = self.endpoints[e].receiver_domain;
        current != NO_DOMAIN && current != target
    }

    /// Why a capability is not installed, or nothing when it is.
    pub open spec fn install_fault(self, ctx: Ctx, request: InstallCapRequest) -> Option<Status> {
        let d = ctx.cap.object.index as int;
        let target = self.domains[d];
        if target.state != DomainState::Building {
            Some(Status::StateConflict)
        } else if request.target_slot >= MAX_CAPS {
            Some(Status::InvalidArgument)
        } else {
            match self.install_source(ctx, request) {
                Err(code) => Some(code),
                Ok(source) => {
                    let parent = self.grants[source.grant as int];
                    let narrows = narrowed_deadline(parent.deadline_ns, request.deadline_ns);
                    if !is_copy(request) && request.rights_mask & !source.rights != 0 {
                        Some(Status::InsufficientRights)
                    } else if !is_copy(request) && narrows is None {
                        Some(Status::InvalidArgument)
                    } else if !is_copy(request) && !self.can_grant(
                        target.owner_scope,
                        source.grant,
                    ) {
                        Some(Status::LimitExhausted)
                    } else if self.receives(request, source) && self.is_taken(
                        source.object.index as int,
                        d,
                    ) {
                        Some(Status::StateConflict)
                    } else if !self.caps[cap_at(d, request.target_slot as int)].is_free()
                        || !self.affords(
                        target.owner_scope,
                        Resource::Metadata,
                        if is_copy(request) {
                            1
                        } else {
                            2
                        },
                    ) {
                        Some(Status::LimitExhausted)
                    } else {
                        None
                    }
                },
            }
        }
    }

    /// The installed capability is the receiving side of an endpoint.
    pub open spec fn receives(self, request: InstallCapRequest, source: Resolved) -> bool {
        source.object.kind == ObjKind::Endpoint && self.installed_rights(request, source)
            & right::ENDPOINT_RECEIVE != 0
    }

    /// The machine once a capability has been installed.
    pub open spec fn cap_installed(self, ctx: Ctx, request: InstallCapRequest) -> MachineModel {
        let d = ctx.cap.object.index as int;
        let target = self.domains[d];
        let source = self.install_source(ctx, request)->Ok_0;
        let parent = self.grants[source.grant as int];
        let granted = if is_copy(request) {
            self
        } else {
            self.granted(
                target.owner_scope,
                source.grant,
                source.object,
                request.rights_mask,
                narrowed_deadline(parent.deadline_ns, request.deadline_ns)->0,
                parent.life_scope,
                parent.facet,
            )
        };
        let g = if is_copy(request) {
            source.grant
        } else {
            self.next_grant() as u16
        };
        let e = source.object.index as int;
        let claimed = if self.receives(request, source) {
            granted.with_endpoint(
                e,
                Endpoint {
                    receiver_domain: d as u16,
                    receiver_generation: target.generation,
                    ..granted.endpoints[e]
                },
            )
        } else {
            granted
        };
        claimed.install(d, request.target_slot as int, source.object, g)
    }

    /// Why a thread is not created before one is made, or nothing.
    pub open spec fn add_thread_fault(self, ctx: Ctx, request: ThreadCreateRequest) -> Option<
        Status,
    > {
        let d = ctx.cap.object.index as int;
        if request.reserved0 != 0 {
            Some(Status::InvalidArgument)
        } else if self.domains[d].state != DomainState::Building {
            Some(Status::StateConflict)
        } else if !self.thread_is_mapped(d, request.entry, request.stack_top) {
            Some(Status::InvalidArgument)
        } else if self.thread_fault(d, request.entry, request.stack_top) is Some {
            Some(Status::LimitExhausted)
        } else {
            None
        }
    }

    /// The endpoint faults are to be reported on, or why they may not be.
    pub open spec fn channel_source(self, ctx: Ctx, request: FaultChannelRequest) -> Result<
        Resolved,
        Status,
    > {
        self.resolved(
            ctx.domain as int,
            request.endpoint_handle,
            object_type::ENDPOINT,
            right::ENDPOINT_SEND,
            ctx.now,
        )
    }

    /// Why a fault channel is not installed, or nothing when it is.
    pub open spec fn channel_fault(self, ctx: Ctx, request: FaultChannelRequest) -> Option<Status> {
        let target = self.domains[ctx.cap.object.index as int];
        if request.reserved0 != 0 {
            Some(Status::InvalidArgument)
        } else if target.state != DomainState::Building || target.fault_endpoint is Some {
            Some(Status::StateConflict)
        } else {
            match self.channel_source(ctx, request) {
                Err(code) => Some(code),
                Ok(cap) => {
                    let endpoint = self.endpoints[cap.object.index as int];
                    if endpoint.reserved_cells + 1 >= endpoint.capacity {
                        Some(Status::LimitExhausted)
                    } else {
                        None
                    }
                },
            }
        }
    }

    /// The machine once the faults of a domain are reported on an endpoint, with
    /// a cell of its queue reserved for the report.
    pub open spec fn channel_installed(
        self,
        ctx: Ctx,
        request: FaultChannelRequest,
    ) -> MachineModel {
        let d = ctx.cap.object.index as int;
        let cap = self.channel_source(ctx, request)->Ok_0;
        let e = cap.object.index as int;
        self.with_endpoint(
            e,
            Endpoint {
                reserved_cells: (self.endpoints[e].reserved_cells + 1) as u32,
                ..self.endpoints[e]
            },
        ).count_grant(cap.grant, true).with_domain(
            d,
            Domain {
                fault_endpoint: Some(cap.object),
                fault_grant: cap.grant,
                fault_facet: cap.facet,
                fault_reserved: true,
                ..self.domains[d]
            },
        )
    }

    /// State of a domain.
    pub open spec fn domain_info(self, d: int) -> DomainInfo {
        let domain = self.domains[d];
        let owner = Owner::Domain(d as u16);
        DomainInfo {
            state: domain.state.abi_spec(),
            threads: thread_count(domain, MAX_THREADS_PER_DOMAIN as int) as u32,
            faults: domain.faults,
            space_cpu_mask: (domain.cpu_mask & 0xFFFF_FFFF) as u32,
            domain_id: domain.id,
            owner_scope_id: self.scopes[domain.owner_scope as int].id,
            exit_code: domain.exit_code,
            fault_vector: match domain.fault {
                Some(f) => f.vector,
                None => 0,
            },
            fault_rip: match domain.fault {
                Some(f) => f.rip,
                None => 0,
            },
            charged_pages: (count_use(self.uses, FrameUse::Held(owner)) + count_use(
                self.uses,
                FrameUse::Table(owner),
            )) as u64,
            entry_point: domain.entry,
        }
    }
}

/// A request that narrows nothing: the receiver shares the lineage, so a barrier
/// reaches it.
pub open spec fn is_copy(request: InstallCapRequest) -> bool {
    request.rights_mask == 0 && request.deadline_ns == 0
}

/// Checks an installation before anything changes; returns the source, the
/// deadline and whether the receiving side of an endpoint goes along.
fn check_install(machine: &Machine, ctx: &Ctx, request: &InstallCapRequest) -> (result: Result<
    (Resolved, u64, bool),
    Status,
>)
    requires
        machine.wf(),
        ctx_ok(*ctx, ObjKind::Domain),
    ensures
        match result {
            Ok((source, deadline, receives)) => {
                &&& machine@.install_fault(*ctx, *request) is None
                &&& machine@.install_source(*ctx, *request) == Ok::<Resolved, Status>(source)
                &&& crate::api::cap_named_ok(source)
                &&& receives == machine@.receives(*request, source)
                &&& !is_copy(*request) ==> narrowed_deadline(
                    machine@.grants[source.grant as int].deadline_ns,
                    request.deadline_ns,
                ) == Some(deadline)
            },
            Err(code) => machine@.install_fault(*ctx, *request) == Some(code),
        },
{
    let d: usize = ctx.cap.object.index as usize;
    let target = machine.domain(d);
    if target.state != DomainState::Building {
        return Err(Status::StateConflict);
    }
    if request.target_slot >= MAX_CAPS as u32 {
        return Err(Status::InvalidArgument);
    }
    let source = match resolve(
        machine,
        ctx.domain,
        request.source_handle,
        object_type::NONE,
        right::TRANSFER,
        ctx.now,
    ) {
        Err(code) => {
            return Err(code);
        },
        Ok(source) => source,
    };
    let parent = machine.grant(source.grant as usize);
    let copy = request.rights_mask == 0 && request.deadline_ns == 0;
    let mut deadline: u64 = 0;
    if !copy {
        if request.rights_mask & !source.rights != 0 {
            return Err(Status::InsufficientRights);
        }
        deadline = match narrow_deadline(parent.deadline_ns, request.deadline_ns) {
            None => {
                return Err(Status::InvalidArgument);
            },
            Some(deadline) => deadline,
        };
        if !crate::api::can_grant(machine, target.owner_scope, source.grant) {
            return Err(Status::LimitExhausted);
        }
    }
    let rights: u32 = if copy {
        parent.rights
    } else {
        request.rights_mask
    };
    let receives = source.object.kind == ObjKind::Endpoint && rights & right::ENDPOINT_RECEIVE
        != 0;
    if receives {
        let current: u16 = machine.endpoint(source.object.index as usize).receiver_domain;
        if current != NO_DOMAIN && current as usize != d {
            return Err(Status::StateConflict);
        }
    }
    let entry = machine.cap(d, request.target_slot as usize);
    let needed: u64 = if copy {
        1
    } else {
        2
    };
    if entry.live || entry.generation == u32::MAX || !machine.affords(
        target.owner_scope,
        Resource::Metadata,
        needed,
    ) {
        return Err(Status::LimitExhausted);
    }
    Ok((source, deadline, receives))
}

/// Installs a capability into a building domain's table.
pub fn install_cap(machine: &mut Machine, ctx: &Ctx, request: &InstallCapRequest) -> (result:
    Result<u64, Status>)
    requires
        old(machine).wf(),
        ctx_ok(*ctx, ObjKind::Domain),
    ensures
        final(machine).wf(),
        final(machine).same_tables(*old(machine)),
        match old(machine)@.install_fault(*ctx, *request) {
            Some(code) => {
                &&& result == Err::<u64, Status>(code)
                &&& final(machine)@ == old(machine)@
            },
            None => {
                &&& final(machine)@ == old(machine)@.cap_installed(*ctx, *request)
                &&& result == Ok::<u64, Status>(
                    old(machine)@.fresh_handle(
                        ctx.cap.object.index as int,
                        request.target_slot as int,
                    ),
                )
            },
        },
{
    let (source, deadline, receives): (Resolved, u64, bool) = match check_install(
        machine,
        ctx,
        request,
    ) {
        Err(code) => {
            return Err(code);
        },
        Ok(checked) => checked,
    };
    let d: usize = ctx.cap.object.index as usize;
    let target = machine.domain(d);
    let parent = machine.grant(source.grant as usize);
    let ghost m = machine@;
    let mut grant: u16 = source.grant;
    if !(request.rights_mask == 0 && request.deadline_ns == 0) {
        match grant_alloc(
            machine,
            target.owner_scope,
            source.grant,
            source.object,
            request.rights_mask,
            deadline,
            parent.life_scope,
            parent.facet,
        ) {
            Some(made) => {
                grant = made;
            },
            None => {},
        }
        proof {
            old(machine).wf_scopes();
            room_splits(
                m.scopes,
                target.owner_scope as int,
                target.owner_scope as int,
                Resource::Metadata,
                1,
                1,
            );
        }
    }
    if receives {
        let e: usize = source.object.index as usize;
        let endpoint = machine.endpoint(e);
        machine.set_endpoint(
            e,
            Endpoint {
                receiver_domain: d as u16,
                receiver_generation: target.generation,
                ..endpoint
            },
        );
    }
    match cap_install(
        machine,
        d,
        source.object,
        grant,
        Some(request.target_slot as usize),
    ) {
        Some(handle) => Ok(handle),
        None => Err(Status::LimitExhausted),
    }
}

/// Creates a thread of a building domain; returns its identity.
///
/// The entry point and the stack are checked against the domain's own mappings:
/// a supervisor that got an address wrong should learn so here rather than
/// through a fault report.
pub fn add_thread(machine: &mut Machine, ctx: &Ctx, request: &ThreadCreateRequest) -> (result:
    Result<u64, Status>)
    requires
        old(machine).wf(),
        old(machine)@.kernel_space is Some,
        ctx_ok(*ctx, ObjKind::Domain),
    ensures
        final(machine).wf(),
        kernel_took(old(machine)@.uses, final(machine)@.uses),
        ({
            let m = old(machine)@;
            let d = ctx.cap.object.index as int;
            match m.add_thread_fault(*ctx, *request) {
                Some(code) => {
                    &&& result == Err::<u64, Status>(code)
                    &&& final(machine)@ == m
                },
                None => match result {
                    Err(code) => {
                        &&& code == Status::LimitExhausted
                        &&& exists|e: CreateError| stack_refused(*old(machine), e)
                        &&& final(machine)@ == (MachineModel { uses: final(machine)@.uses, ..m })
                    },
                    Ok(id) => {
                        &&& stack_is_mapped(
                            *final(machine),
                            first_kstack(m.kstacks, 0),
                            KSTACK_PAGES as int,
                        )
                        &&& stack_is_fresh(
                            m.uses,
                            *final(machine),
                            first_kstack(m.kstacks, 0),
                            KSTACK_PAGES as int,
                        )
                        &&& final(machine)@ == (MachineModel {
                            uses: final(machine)@.uses,
                            ..m.thread_added(
                                d,
                                request.entry,
                                request.stack_top,
                                request.argument,
                            )
                        })
                        &&& id == if m.next_id < u64::MAX {
                            m.next_id
                        } else {
                            0
                        }
                    },
                },
            }
        }),
{
    if request.reserved0 != 0 {
        return Err(Status::InvalidArgument);
    }
    let d: usize = ctx.cap.object.index as usize;
    if machine.domain(d).state != DomainState::Building {
        return Err(Status::StateConflict);
    }
    if !thread_mapped(machine, d, request.entry, request.stack_top) {
        return Err(Status::InvalidArgument);
    }
    proof {
        machine.wf_sized();
    }
    match add_thread_in(machine, d, request.entry, request.stack_top, request.argument) {
        Err(_) => Err(Status::LimitExhausted),
        Ok(t) => Ok(machine.thread(t).id),
    }
}

/// Installs the channel a fault of this domain is reported on.
///
/// The queue cell is reserved now, not when the fault happens: a supervisor
/// whose queue is full of ordinary traffic must still hear that one of its
/// domains died.
pub fn set_fault_channel(machine: &mut Machine, ctx: &Ctx, request: &FaultChannelRequest) -> (
    result: Result<u64, Status>)
    requires
        old(machine).wf(),
        ctx_ok(*ctx, ObjKind::Domain),
    ensures
        final(machine).wf(),
        final(machine).same_tables(*old(machine)),
        match old(machine)@.channel_fault(*ctx, *request) {
            Some(code) => {
                &&& result == Err::<u64, Status>(code)
                &&& final(machine)@ == old(machine)@
            },
            None => {
                &&& result == Ok::<u64, Status>(0)
                &&& final(machine)@ == old(machine)@.channel_installed(*ctx, *request)
            },
        },
{
    if request.reserved0 != 0 {
        return Err(Status::InvalidArgument);
    }
    let d: usize = ctx.cap.object.index as usize;
    let target = machine.domain(d);
    if target.state != DomainState::Building || target.fault_endpoint.is_some() {
        return Err(Status::StateConflict);
    }
    let cap = match resolve(
        machine,
        ctx.domain,
        request.endpoint_handle,
        object_type::ENDPOINT,
        right::ENDPOINT_SEND,
        ctx.now,
    ) {
        Err(code) => {
            return Err(code);
        },
        Ok(cap) => cap,
    };
    assert(cap.object.kind == ObjKind::Endpoint);
    let e: usize = cap.object.index as usize;
    let endpoint = machine.endpoint(e);
    if endpoint.reserved_cells as u64 + 1 >= endpoint.capacity as u64 {
        return Err(Status::LimitExhausted);
    }
    machine.set_endpoint(
        e,
        Endpoint { reserved_cells: endpoint.reserved_cells + 1, ..endpoint },
    );
    hold_grant(machine, cap.grant, true);
    machine.set_domain(
        d,
        Domain {
            fault_endpoint: Some(cap.object),
            fault_grant: cap.grant,
            fault_facet: cap.facet,
            fault_reserved: true,
            ..target
        },
    );
    Ok(0)
}

/// Crosses the activation gate; returns the identity of the domain.
pub fn activate(machine: &mut Machine, ctx: &Ctx) -> (result: Result<u64, Status>)
    requires
        old(machine).wf(),
        ctx_ok(*ctx, ObjKind::Domain),
    ensures
        final(machine).wf(),
        ({
            let d = ctx.cap.object.index as int;
            if old(machine)@.activation_fault(d) is Some {
                &&& result == Err::<u64, Status>(Status::StateConflict)
                &&& final(machine)@ == old(machine)@
            } else {
                &&& result == Ok::<u64, Status>(old(machine)@.domains[d].id)
                &&& final(machine)@ == old(machine)@.activated(d)
            }
        }),
{
    let d: usize = ctx.cap.object.index as usize;
    let id: u64 = machine.domain(d).id;
    match activate_in(machine, d) {
        Ok(()) => Ok(id),
        Err(_) => Err(Status::StateConflict),
    }
}

/// Stops a domain; returns its identity.
pub fn terminate(machine: &mut Machine, ctx: &Ctx, cpu: usize) -> (result: Result<u64, Status>)
    requires
        old(machine).wf(),
        ctx_ok(*ctx, ObjKind::Domain),
    ensures
        final(machine).wf(),
        ({
            let d = ctx.cap.object.index as int;
            let domain = old(machine)@.domains[d];
            if domain.state == DomainState::Building || domain.state == DomainState::Runnable {
                &&& result == Ok::<u64, Status>(domain.id)
                &&& final(machine)@ == old(machine)@.terminated(
                    d,
                    ExitReason::Terminated,
                    0,
                    cpu as int,
                    ctx.now,
                )
            } else {
                &&& result == Err::<u64, Status>(Status::StateConflict)
                &&& final(machine)@ == old(machine)@
            }
        }),
{
    let d: usize = ctx.cap.object.index as usize;
    let id: u64 = machine.domain(d).id;
    if terminate_in(machine, d, ExitReason::Terminated, 0, cpu, ctx.now) {
        Ok(id)
    } else {
        Err(Status::StateConflict)
    }
}

/// Reports lifecycle, faults and exit.
pub fn query(machine: &Machine, ctx: &Ctx) -> (info: DomainInfo)
    requires
        machine.wf(),
        ctx_ok(*ctx, ObjKind::Domain),
    ensures
        info == machine@.domain_info(ctx.cap.object.index as int),
{
    let d: usize = ctx.cap.object.index as usize;
    let domain = machine.domain(d);
    let (vector, rip): (u64, u64) = match domain.fault {
        Some(fault) => (fault.vector, fault.rip),
        None => (0, 0),
    };
    let mask: u64 = domain.cpu_mask & 0xFFFF_FFFF;
    let wide: u64 = domain.cpu_mask;
    assert(wide & 0xFFFF_FFFF <= 0xFFFF_FFFF) by (bit_vector);
    DomainInfo {
        state: domain.state.abi(),
        threads: count_threads(&domain),
        faults: domain.faults,
        space_cpu_mask: mask as u32,
        domain_id: domain.id,
        owner_scope_id: machine.scope(domain.owner_scope as usize).id,
        exit_code: domain.exit_code,
        fault_vector: vector,
        fault_rip: rip,
        charged_pages: machine.charged(Owner::Domain(d as u16)),
        entry_point: domain.entry,
    }
}

/// A writable mapping is made only of an object that accepts writers: a sealed
/// object, or one whose seal has begun, never gets one.
pub proof fn sealed_objects_get_no_writer(m: MachineModel, ctx: Ctx, request: MapRequest)
    requires
        m.map_fault(ctx, request) is None,
        request.rights & right::MEMORY_WRITE != 0,
    ensures
        m.memories[m.map_source(ctx, request)->Ok_0.object.index as int].state
            == MemState::Mutable,
{
}

} // verus!
