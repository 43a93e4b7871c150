//! The kernel interface: resolution, admission and the bookkeeping every
//! operation shares.
//!
//! Every operation goes through the same three steps: structure, authority,
//! effect. Everything that has to be reserved is reserved before anything
//! becomes visible, and a refusal leaves no partial object, no partial transfer
//! and no charge behind.

pub mod calls;
pub mod capops;
pub mod closing;
pub mod devops;
pub mod dispatch;
pub mod domainops;
pub mod evtops;
pub mod ipcops;
pub mod laws;
pub mod logops;
pub mod memops;
pub mod obligations;
pub mod scopeops;

use vstd::prelude::*;

use crate::abi::object_type;
use crate::abi::status::Status;
use crate::ctrl::{one_less, one_more, LogModel, ReceiptRecord};
use crate::ipc::Invocation;
use crate::limits::{
    LOG_BATCH, MAX_CAPS, MAX_CONTROL_LOGS, MAX_DERIVE_DEPTH, MAX_DEVICES, MAX_DOMAINS,
    MAX_ENDPOINTS, MAX_GRANTS, MAX_INVOCATIONS, MAX_MEMORY_OBJECTS, MAX_SCOPES, MAX_SIGNALS,
    MAX_THREADS, MAX_TIMERS,
};
use crate::obj::{
    cap_at, cap_lookup, first_free, with_cap, without_cap, CapEntry, Grant, ObjKind, ObjRef,
    NO_GRANT,
};
use crate::scope::{self, released, room_splits, Resource, Scope};
use crate::state::{
    cap_ok, grant_ref_ok, is_calm, ref_ok, table_len, DomainState, Machine, MachineModel, Wait,
    WakeHint,
};
use crate::thread::wake_first;

verus! {

/// A resolved capability: what the handle named and what it still permits.
#[derive(Clone, Copy, Debug, PartialEq, Eq, Structural)]
pub struct Resolved {
    /// Table slot the handle named.
    pub slot: usize,
    /// Object the capability names.
    pub object: ObjRef,
    /// Grant carrying the rights and the lifetime.
    pub grant: u16,
    /// Effective rights of that grant.
    pub rights: u32,
    /// Immutable facet the grant carries, or zero.
    pub facet: u64,
}

/// Everything an operation handler needs about its caller.
#[derive(Clone, Copy, Debug, PartialEq, Eq, Structural)]
pub struct Ctx {
    /// Calling domain.
    pub domain: usize,
    /// Calling thread.
    pub thread: usize,
    /// Handle the caller passed.
    pub handle: u64,
    /// Operation code.
    pub operation: u32,
    /// Flags register, already checked against the known bits.
    pub flags: u64,
    /// Monotonic deadline the caller passed, zero for none.
    pub deadline: u64,
    /// Monotonic time the operation was linearised at.
    pub now: u64,
    /// The resolved capability.
    pub cap: Resolved,
}

impl MachineModel {
    /// The object still names a live entry with the recorded generation.
    pub open spec fn alive(self, o: ObjRef) -> bool {
        let i = o.index as int;
        i < table_len(o.kind) && match o.kind {
            ObjKind::Scope => self.scopes[i].state != scope::State::Empty
                && self.scopes[i].generation == o.generation,
            ObjKind::Domain => self.domains[i].state != DomainState::Empty
                && self.domains[i].generation == o.generation,
            ObjKind::Memory => self.memories[i].state != crate::memobj::State::Empty
                && self.memories[i].generation == o.generation,
            ObjKind::Endpoint => self.endpoints[i].used && self.endpoints[i].generation
                == o.generation,
            ObjKind::Invocation => self.invocations[i].state != crate::ipc::State::Empty
                && self.invocations[i].generation == o.generation,
            ObjKind::Signal => self.signals[i].used && self.signals[i].generation == o.generation,
            ObjKind::Timer => self.timers[i].used && self.timers[i].generation == o.generation,
            ObjKind::ControlLog => self.logs[i].used && self.logs[i].generation == o.generation,
            ObjKind::Device => self.devices[i].used && self.devices[i].generation == o.generation,
        }
    }

    /// Diagnostic identity of an object, or zero when it is gone.
    pub open spec fn identity(self, o: ObjRef) -> u64 {
        let i = o.index as int;
        if !self.alive(o) {
            0
        } else {
            match o.kind {
                ObjKind::Scope => self.scopes[i].id,
                ObjKind::Domain => self.domains[i].id,
                ObjKind::Memory => self.memories[i].id,
                ObjKind::Endpoint => self.endpoints[i].id,
                ObjKind::Invocation => self.invocations[i].id,
                ObjKind::Signal => self.signals[i].id,
                ObjKind::Timer => self.timers[i].id,
                ObjKind::ControlLog => self.logs[i].id,
                ObjKind::Device => self.devices[i].id,
            }
        }
    }

    /// Capability entries that name an object.
    pub open spec fn refs_of(self, o: ObjRef) -> u32 {
        let i = o.index as int;
        match o.kind {
            ObjKind::Scope => self.scopes[i].refs,
            ObjKind::Domain => self.domains[i].refs,
            ObjKind::Memory => self.memories[i].refs,
            ObjKind::Endpoint => self.endpoints[i].refs,
            ObjKind::Invocation => self.invocations[i].refs,
            ObjKind::Signal => self.signals[i].refs,
            ObjKind::Timer => self.timers[i].refs,
            ObjKind::ControlLog => self.logs[i].refs,
            ObjKind::Device => self.devices[i].refs,
        }
    }

    /// The machine with one capability entry more, or one fewer, counted on the
    /// object.
    pub open spec fn count_ref(self, o: ObjRef, more: bool) -> MachineModel {
        let i = o.index as int;
        match o.kind {
            ObjKind::Scope => self.with_scope(
                i,
                Scope { refs: stepped(self.scopes[i].refs, more), ..self.scopes[i] },
            ),
            ObjKind::Domain => self.with_domain(
                i,
                crate::state::Domain {
                    refs: stepped(self.domains[i].refs, more),
                    ..self.domains[i]
                },
            ),
            ObjKind::Memory => self.with_memory(
                i,
                crate::memobj::MemoryObject {
                    refs: stepped(self.memories[i].refs, more),
                    ..self.memories[i]
                },
            ),
            ObjKind::Endpoint => self.with_endpoint(
                i,
                crate::ipc::Endpoint {
                    refs: stepped(self.endpoints[i].refs, more),
                    ..self.endpoints[i]
                },
            ),
            ObjKind::Invocation => self.with_invocation(
                i,
                Invocation {
                    refs: stepped(self.invocations[i].refs, more),
                    ..self.invocations[i]
                },
            ),
            ObjKind::Signal => self.with_signal(
                i,
                crate::events::Signal {
                    refs: stepped(self.signals[i].refs, more),
                    ..self.signals[i]
                },
            ),
            ObjKind::Timer => self.with_timer(
                i,
                crate::events::Timer {
                    refs: stepped(self.timers[i].refs, more),
                    ..self.timers[i]
                },
            ),
            ObjKind::ControlLog => self.with_log(
                i,
                LogModel { refs: stepped(self.logs[i].refs, more), ..self.logs[i] },
            ),
            ObjKind::Device => self.with_device(
                i,
                crate::device::Device {
                    refs: stepped(self.devices[i].refs, more),
                    ..self.devices[i]
                },
            ),
        }
    }

    /// The machine with one reference more, or one fewer, counted on a grant;
    /// unchanged for no grant.
    pub open spec fn count_grant(self, g: u16, more: bool) -> MachineModel {
        if g == NO_GRANT {
            self
        } else {
            self.with_grant(
                g as int,
                Grant {
                    refs: stepped(self.grants[g as int].refs, more),
                    ..self.grants[g as int]
                },
            )
        }
    }

    /// The slot a capability would be put in: the one asked for, or the first
    /// that can be filled; [`MAX_CAPS`] when there is none.
    pub open spec fn slot_for(self, domain: int, slot: Option<usize>) -> int {
        match slot {
            Some(s) => if s < MAX_CAPS && self.caps[cap_at(domain, s as int)].is_free() {
                s as int
            } else {
                MAX_CAPS as int
            },
            None => first_free(self.caps, domain, 0),
        }
    }

    /// A capability can be put in a domain's table.
    pub open spec fn can_install(self, domain: int, slot: Option<usize>) -> bool {
        &&& self.slot_for(domain, slot) < MAX_CAPS
        &&& self.affords(self.domains[domain].owner_scope, Resource::Metadata, 1)
    }

    /// The machine once a capability has been put in slot `slot` of a domain's
    /// table: the slot is charged, and the grant and the object are held.
    pub open spec fn install(self, domain: int, slot: int, o: ObjRef, g: u16) -> MachineModel {
        let paid = self.charge(self.domains[domain].owner_scope, Resource::Metadata, 1);
        let filled = MachineModel { caps: with_cap(paid.caps, domain, slot, o, g), ..paid };
        filled.count_grant(g, true).count_ref(o, true)
    }

    /// The machine once an invocation record that is discharged and that
    /// nothing names has been freed.
    pub open spec fn collect_invocation(self, i: int) -> MachineModel {
        let invocation = self.invocations[i];
        if invocation.state == crate::ipc::State::Resolved && invocation.refs == 0 {
            self.with_invocation(
                i,
                Invocation { generation: invocation.generation, ..Invocation::empty_spec() },
            )
        } else {
            self
        }
    }

    /// A grant node that nothing refers to.
    pub open spec fn is_idle_grant(self, g: int) -> bool {
        self.grants[g].used && self.grants[g].refs == 0 && self.grants[g].children == 0
    }

    /// The machine once a grant node has been freed and its parent has lost a
    /// child.
    pub open spec fn free_grant(self, g: int) -> MachineModel {
        let node = self.grants[g];
        let freed = MachineModel {
            grant_hint: if g < self.grant_hint {
                g as usize
            } else {
                self.grant_hint
            },
            ..self.with_grant(g, Grant::empty_spec())
        }.uncharge(node.sponsor, Resource::Metadata, 1);
        if node.parent == NO_GRANT {
            freed
        } else {
            freed.with_grant(
                node.parent as int,
                Grant {
                    children: one_less(freed.grants[node.parent as int].children),
                    ..freed.grants[node.parent as int]
                },
            )
        }
    }

    /// The machine once a grant node that nothing refers to has been freed, and
    /// its ancestors while they are left with nothing, `steps` nodes at most.
    pub open spec fn collect_grant(self, g: u16, steps: nat) -> MachineModel
        decreases steps,
    {
        if steps == 0 || g == NO_GRANT || !self.is_idle_grant(g as int) {
            self
        } else {
            self.free_grant(g as int).collect_grant(
                self.grants[g as int].parent,
                (steps - 1) as nat,
            )
        }
    }

    /// The machine once everything that a capability entry kept alive has been
    /// let go.
    pub open spec fn release_entry(self, domain: int, entry: CapEntry) -> MachineModel {
        let unpaid = self.uncharge(
            self.domains[domain].owner_scope,
            Resource::Metadata,
            1,
        ).count_grant(entry.grant, false).count_ref(entry.object, false);
        let i = entry.object.index as int;
        let collected = match entry.object.kind {
            ObjKind::Invocation => unpaid.collect_invocation(i),
            ObjKind::Memory => if unpaid.memories[i].generation == entry.object.generation {
                unpaid.collect_memory(i, false)
            } else {
                unpaid
            },
            _ => unpaid,
        };
        collected.collect_grant(entry.grant, MAX_DERIVE_DEPTH as nat)
    }

    /// The machine once the entry in a slot, if it holds one, has been released.
    pub open spec fn release_slot(self, domain: int, slot: int) -> MachineModel {
        let entry = self.caps[cap_at(domain, slot)];
        if entry.live {
            MachineModel {
                caps: without_cap(self.caps, domain, slot),
                ..self
            }.release_entry(domain, entry)
        } else {
            self
        }
    }

    /// The grant node the next allocation takes: the first free one from the
    /// hint on, else the first free one before it; [`MAX_GRANTS`] when there is
    /// none.
    pub open spec fn next_grant(self) -> int {
        let late = first_grant(self.grants, self.grant_hint as int, MAX_GRANTS as int);
        if late < MAX_GRANTS {
            late
        } else {
            let early = first_grant(self.grants, 0, self.grant_hint as int);
            if early < self.grant_hint {
                early
            } else {
                MAX_GRANTS as int
            }
        }
    }

    /// Distance of a child of `parent` from the root of its lineage.
    pub open spec fn child_depth(self, parent: u16) -> int {
        if parent == NO_GRANT {
            0
        } else {
            self.grants[parent as int].depth + 1
        }
    }

    /// A grant node can be allocated below `parent` on the account of `sponsor`.
    pub open spec fn can_grant(self, sponsor: u16, parent: u16) -> bool {
        &&& self.child_depth(parent) <= MAX_DERIVE_DEPTH
        &&& self.next_grant() < MAX_GRANTS
        &&& self.affords(sponsor, Resource::Metadata, 1)
        &&& self.next_id < u64::MAX
    }

    /// The machine once a grant node has been allocated.
    pub open spec fn granted(
        self,
        sponsor: u16,
        parent: u16,
        object: ObjRef,
        rights: u32,
        deadline_ns: u64,
        life_scope: Option<u16>,
        facet: u64,
    ) -> MachineModel {
        let at = self.next_grant();
        let made = MachineModel {
            next_id: (self.next_id + 1) as u64,
            grant_hint: (at + 1) as usize,
            ..self.charge(sponsor, Resource::Metadata, 1)
        }.with_grant(
            at,
            Grant {
                used: true,
                id: self.next_id,
                parent,
                depth: self.child_depth(parent) as u32,
                rights,
                deadline_ns,
                life_scope,
                facet,
                object,
                fenced: false,
                refs: 0,
                children: 0,
                sponsor,
            },
        );
        if parent == NO_GRANT {
            made
        } else {
            made.with_grant(
                parent as int,
                Grant {
                    children: one_more(made.grants[parent as int].children),
                    ..made.grants[parent as int]
                },
            )
        }
    }

    /// A new grant and a handle on it fit, on the account of the domain.
    pub open spec fn can_mint(self, domain: int, parent: u16) -> bool {
        let owner = self.domains[domain].owner_scope;
        &&& self.can_grant(owner, parent)
        &&& self.slot_for(domain, None) < MAX_CAPS
        &&& self.affords(owner, Resource::Metadata, 2)
    }

    /// The machine once a domain has been given a new grant and a handle on it.
    pub open spec fn minted(
        self,
        domain: int,
        parent: u16,
        object: ObjRef,
        rights: u32,
        deadline_ns: u64,
        life_scope: Option<u16>,
        facet: u64,
    ) -> MachineModel {
        let owner = self.domains[domain].owner_scope;
        self.granted(owner, parent, object, rights, deadline_ns, life_scope, facet).install(
            domain,
            self.slot_for(domain, None),
            object,
            self.next_grant() as u16,
        )
    }

    /// The handle [`MachineModel::minted`] gives out.
    pub open spec fn minted_handle(self, domain: int) -> u64 {
        self.fresh_handle(domain, self.slot_for(domain, None))
    }

    /// The machine once `sponsor` pays for the record of a new object and its
    /// identity has been taken.
    pub open spec fn claimed(self, sponsor: u16) -> MachineModel {
        MachineModel {
            next_id: (self.next_id + 1) as u64,
            ..self.charge(sponsor, Resource::Metadata, 1)
        }
    }

    /// A new object fits, on the account of `sponsor`, and so do a grant and a
    /// handle for the domain that creates it.
    pub open spec fn can_create(self, sponsor: u16, domain: int) -> bool {
        &&& self.affords(sponsor, Resource::Metadata, 1)
        &&& self.next_id < u64::MAX
        &&& self.claimed(sponsor).can_mint(domain, NO_GRANT)
    }

    /// The machine once a domain holds every right to an object it created.
    pub open spec fn owned(self, domain: int, o: ObjRef, rights: u32) -> MachineModel {
        self.minted(domain, NO_GRANT, o, rights, 0, None, 0)
    }

    /// A scope accepts new work.
    pub open spec fn is_open(self, s: u16) -> bool {
        self.scopes[s as int].state == scope::State::Open
    }

    /// What a grant lineage permits.
    pub open spec fn lineage_of(self, g: u16, now: u64) -> Status {
        lineage(self.grants, self.scopes, g, now, (MAX_DERIVE_DEPTH + 1) as nat)
    }

    /// What a handle resolves to, the liveness of its lineage apart.
    pub open spec fn resolved_entry(
        self,
        domain: int,
        handle: u64,
        required_type: u32,
        required_rights: u32,
    ) -> Result<Resolved, Status> {
        match cap_lookup(self.caps, domain, handle) {
            None => Err(Status::InvalidHandle),
            Some(entry) => {
                let node = self.grants[entry.grant as int];
                if required_type != object_type::NONE && entry.object.kind.type_spec()
                    != required_type {
                    Err(Status::WrongType)
                } else if entry.grant >= MAX_GRANTS || !node.used || node.object != entry.object {
                    Err(Status::InvalidHandle)
                } else if node.rights & required_rights != required_rights {
                    Err(Status::InsufficientRights)
                } else if !self.alive(entry.object) {
                    Err(Status::PeerDead)
                } else {
                    Ok(
                        Resolved {
                            slot: crate::abi::slot_of(handle) as usize,
                            object: entry.object,
                            grant: entry.grant,
                            rights: node.rights,
                            facet: node.facet,
                        },
                    )
                }
            },
        }
    }

    /// What a handle resolves to.
    pub open spec fn resolved(
        self,
        domain: int,
        handle: u64,
        required_type: u32,
        required_rights: u32,
        now: u64,
    ) -> Result<Resolved, Status> {
        match self.resolved_entry(domain, handle, required_type, required_rights) {
            Ok(cap) => {
                let lineage = self.lineage_of(cap.grant, now);
                if lineage == Status::Success {
                    Ok(cap)
                } else {
                    Err(lineage)
                }
            },
            Err(code) => Err(code),
        }
    }

    /// `candidate` is `root` or descends from it in the grant tree.
    pub open spec fn is_grant_within(self, root: u16, candidate: u16) -> bool {
        descends(self.grants, root, candidate, (MAX_DERIVE_DEPTH + 2) as nat)
    }

    /// The machine once a reader that waits for a batch of receipts has been
    /// woken, if the log holds one.
    pub open spec fn wake_reader(self, l: int) -> MachineModel {
        let t = self.first_waiting(Wait::Log(l as u16, self.logs[l].generation));
        if self.logs[l].live.len() >= LOG_BATCH && t < MAX_THREADS {
            self.wake(t, Status::Success, WakeHint::Any)
        } else {
            self
        }
    }

    /// The receipt of an operation, before the log stamps it.
    pub open spec fn receipt_for(self, stated: Stated, now: u64) -> ReceiptRecord {
        ReceiptRecord {
            schema: crate::ctrl::RECEIPT_SCHEMA,
            kind: stated.kind,
            sequence: 0,
            epoch: self.boot_epoch,
            ns: now,
            origin_domain_id: if stated.domain < MAX_DOMAINS {
                self.domains[stated.domain as int].id
            } else {
                0
            },
            origin_scope_id: if stated.scope < MAX_SCOPES {
                self.scopes[stated.scope as int].id
            } else {
                0
            },
            object_id: stated.object,
            grant_id: stated.grant,
            parent_invocation_id: stated.parent,
            result: stated.result.code_spec(),
            a: stated.a,
            b: stated.b,
        }
    }

    /// The machine once the receipt of an operation has been written.
    pub open spec fn receipted(self, stated: Stated, now: u64, reserved: bool) -> MachineModel {
        match self.system_log {
            None => self,
            Some(l) => self.with_log(
                l as int,
                self.logs[l as int].recorded(self.receipt_for(stated, now), reserved),
            ).wake_reader(l as int),
        }
    }

    /// The sequence [`receipt`] returns.
    pub open spec fn receipt_sequence(self, kind: u32, reserved: bool) -> u64 {
        match self.system_log {
            None => 0,
            Some(l) => if self.logs[l as int].takes(kind, reserved) {
                self.logs[l as int].next_sequence
            } else {
                0
            },
        }
    }

    /// A cell for the receipt of a covered operation is left.
    pub open spec fn can_record(self) -> bool {
        self.system_log matches Some(l) ==> self.logs[l as int].can_reserve()
    }

    /// The machine with a cell reserved for a receipt.
    pub open spec fn cell_reserved(self) -> MachineModel {
        match self.system_log {
            None => self,
            Some(l) => self.with_log(
                l as int,
                LogModel {
                    pending: (self.logs[l as int].pending + 1) as u32,
                    ..self.logs[l as int]
                },
            ),
        }
    }

    /// The machine with a reserved cell returned.
    pub open spec fn cell_released(self) -> MachineModel {
        match self.system_log {
            None => self,
            Some(l) => self.with_log(
                l as int,
                LogModel {
                    pending: one_less(self.logs[l as int].pending),
                    ..self.logs[l as int]
                },
            ),
        }
    }
}

/// The first grant node from `from` on, below `to`, that is free; `to` when there
/// is none.
pub open spec fn first_grant(grants: Seq<Grant>, from: int, to: int) -> int
    decreases to - from,
{
    if from >= to {
        to
    } else if !grants[from].used {
        from
    } else {
        first_grant(grants, from + 1, to)
    }
}

/// What a grant lineage permits: success, or the first barrier, expiry or closed
/// scope on the way up, `steps` nodes at most.
pub open spec fn lineage(
    grants: Seq<Grant>,
    scopes: Seq<Scope>,
    g: u16,
    now: u64,
    steps: nat,
) -> Status
    decreases steps,
{
    if g == NO_GRANT {
        Status::Success
    } else if steps == 0 || g >= MAX_GRANTS {
        Status::InvalidHandle
    } else {
        let node = grants[g as int];
        if !node.used {
            Status::InvalidHandle
        } else if node.fenced {
            Status::ScopeClosed
        } else if node.deadline_ns != 0 && now >= node.deadline_ns {
            Status::Expired
        } else if node.life_scope matches Some(life) && scopes[life as int].state
            != scope::State::Open {
            Status::ScopeClosed
        } else if scopes[node.sponsor as int].state != scope::State::Open {
            Status::ScopeClosed
        } else {
            lineage(grants, scopes, node.parent, now, (steps - 1) as nat)
        }
    }
}

/// `candidate` is `root` or descends from it, `steps` nodes up at most.
pub open spec fn descends(grants: Seq<Grant>, root: u16, candidate: u16, steps: nat) -> bool
    decreases steps,
{
    if candidate == NO_GRANT || steps == 0 {
        false
    } else if candidate == root {
        true
    } else if candidate >= MAX_GRANTS || !grants[candidate as int].used {
        false
    } else {
        descends(grants, root, grants[candidate as int].parent, (steps - 1) as nat)
    }
}

/// What a receipt says besides when and in which boot.
#[derive(Clone, Copy, Debug, PartialEq, Eq, Structural)]
pub struct Stated {
    /// Kind of receipt.
    pub kind: u32,
    /// Domain that acted.
    pub domain: usize,
    /// Scope it acted for.
    pub scope: u16,
    /// Identity of the object acted on.
    pub object: u64,
    /// Identity of the grant acted through.
    pub grant: u64,
    /// Identity of the invocation acted for.
    pub parent: u64,
    /// How it ended.
    pub result: Status,
    /// First detail.
    pub a: u64,
    /// Second detail.
    pub b: u64,
}

/// One more or one less, short of overflow.
pub open spec fn stepped(n: u32, more: bool) -> u32 {
    if more {
        one_more(n)
    } else {
        one_less(n)
    }
}

fn step(n: u32, more: bool) -> (m: u32)
    ensures
        m == stepped(n, more),
{
    if more {
        n.saturating_add(1)
    } else {
        n.saturating_sub(1)
    }
}

/// True when `object` still names a live entry with the recorded generation.
pub fn object_alive(machine: &Machine, object: ObjRef) -> (yes: bool)
    requires
        machine.wf(),
    ensures
        yes == machine@.alive(object),
{
    let i: usize = object.index as usize;
    match object.kind {
        ObjKind::Scope => {
            i < MAX_SCOPES && {
                let s = machine.scope(i);
                s.state != scope::State::Empty && s.generation == object.generation
            }
        },
        ObjKind::Domain => {
            i < MAX_DOMAINS && {
                let d = machine.domain(i);
                d.state != DomainState::Empty && d.generation == object.generation
            }
        },
        ObjKind::Memory => {
            i < MAX_MEMORY_OBJECTS && {
                let m = machine.memory(i);
                m.state != crate::memobj::State::Empty && m.generation == object.generation
            }
        },
        ObjKind::Endpoint => {
            i < MAX_ENDPOINTS && {
                let e = machine.endpoint(i);
                e.used && e.generation == object.generation
            }
        },
        ObjKind::Invocation => {
            i < MAX_INVOCATIONS && {
                let v = machine.invocation(i);
                v.state != crate::ipc::State::Empty && v.generation == object.generation
            }
        },
        ObjKind::Signal => {
            i < MAX_SIGNALS && {
                let s = machine.signal(i);
                s.used && s.generation == object.generation
            }
        },
        ObjKind::Timer => {
            i < MAX_TIMERS && {
                let t = machine.timer(i);
                t.used && t.generation == object.generation
            }
        },
        ObjKind::ControlLog => {
            i < MAX_CONTROL_LOGS && {
                let l = machine.log(i);
                l.used && l.generation == object.generation
            }
        },
        ObjKind::Device => {
            i < MAX_DEVICES && {
                let d = machine.device(i);
                d.used && d.generation == object.generation
            }
        },
    }
}

/// Diagnostic identity of an object, or zero when it is gone.
pub fn object_id(machine: &Machine, object: ObjRef) -> (id: u64)
    requires
        machine.wf(),
    ensures
        id == machine@.identity(object),
{
    if !object_alive(machine, object) {
        return 0;
    }
    let i: usize = object.index as usize;
    match object.kind {
        ObjKind::Scope => machine.scope(i).id,
        ObjKind::Domain => machine.domain(i).id,
        ObjKind::Memory => machine.memory(i).id,
        ObjKind::Endpoint => machine.endpoint(i).id,
        ObjKind::Invocation => machine.invocation(i).id,
        ObjKind::Signal => machine.signal(i).id,
        ObjKind::Timer => machine.timer(i).id,
        ObjKind::ControlLog => machine.log(i).id,
        ObjKind::Device => machine.device(i).id,
    }
}

/// Counts one capability entry more, or one fewer, on the object.
fn adjust_object_refs(machine: &mut Machine, object: ObjRef, more: bool)
    requires
        old(machine).wf(),
        ref_ok(object),
    ensures
        final(machine).wf(),
        final(machine).same_tables(*old(machine)),
        final(machine)@ == old(machine)@.count_ref(object, more),
{
    let i: usize = object.index as usize;
    match object.kind {
        ObjKind::Scope => {
            let v = machine.scope(i);
            machine.set_scope(i, Scope { refs: step(v.refs, more), ..v });
        },
        ObjKind::Domain => {
            let v = machine.domain(i);
            machine.set_domain(i, crate::state::Domain { refs: step(v.refs, more), ..v });
        },
        ObjKind::Memory => {
            let v = machine.memory(i);
            machine.set_memory(i, crate::memobj::MemoryObject { refs: step(v.refs, more), ..v });
        },
        ObjKind::Endpoint => {
            let v = machine.endpoint(i);
            machine.set_endpoint(i, crate::ipc::Endpoint { refs: step(v.refs, more), ..v });
        },
        ObjKind::Invocation => {
            let v = machine.invocation(i);
            machine.set_invocation(i, Invocation { refs: step(v.refs, more), ..v });
        },
        ObjKind::Signal => {
            let v = machine.signal(i);
            machine.set_signal(i, crate::events::Signal { refs: step(v.refs, more), ..v });
        },
        ObjKind::Timer => {
            let v = machine.timer(i);
            machine.set_timer(i, crate::events::Timer { refs: step(v.refs, more), ..v });
        },
        ObjKind::ControlLog => {
            let refs: u32 = machine.log(i).refs;
            machine.set_log_refs(i, step(refs, more));
        },
        ObjKind::Device => {
            let v = machine.device(i);
            machine.set_device(i, crate::device::Device { refs: step(v.refs, more), ..v });
        },
    }
}

/// Installs a capability in a domain's table, charging the slot as metadata.
///
/// The charge is the point: a handle is kernel metadata, and a domain that can
/// accumulate handles for free can make the kernel's tables grow without ever
/// exceeding a limit it was given.
pub fn cap_install(
    machine: &mut Machine,
    domain: usize,
    object: ObjRef,
    grant: u16,
    slot: Option<usize>,
) -> (handle: Option<u64>)
    requires
        old(machine).wf(),
        domain < MAX_DOMAINS,
        ref_ok(object),
        grant_ref_ok(grant),
    ensures
        final(machine).wf(),
        final(machine).same_tables(*old(machine)),
        ({
            let at = old(machine)@.slot_for(domain as int, slot);
            if old(machine)@.can_install(domain as int, slot) {
                &&& final(machine)@ == old(machine)@.install(domain as int, at, object, grant)
                &&& handle == Some(old(machine)@.fresh_handle(domain as int, at))
            } else {
                &&& handle is None
                &&& final(machine)@ == old(machine)@
            }
        }),
{
    let at: usize = match slot {
        Some(s) => {
            if s >= MAX_CAPS {
                return None;
            }
            let entry = machine.cap(domain, s);
            if entry.live || entry.generation == u32::MAX {
                return None;
            }
            s
        },
        None => machine.free_cap(domain),
    };
    if at >= MAX_CAPS {
        return None;
    }
    let owner: u16 = machine.domain(domain).owner_scope;
    if !machine.charge(owner, Resource::Metadata, 1) {
        return None;
    }
    let handle: u64 = machine.fill_cap(domain, at, object, grant);
    hold_grant(machine, grant, true);
    adjust_object_refs(machine, object, true);
    Some(handle)
}

/// Counts one reference more, or one fewer, on a grant.
pub fn hold_grant(machine: &mut Machine, grant: u16, more: bool)
    requires
        old(machine).wf(),
        grant_ref_ok(grant),
    ensures
        final(machine).wf(),
        final(machine).same_tables(*old(machine)),
        final(machine)@ == old(machine)@.count_grant(grant, more),
{
    if grant != NO_GRANT {
        let node = machine.grant(grant as usize);
        machine.set_grant(grant as usize, Grant { refs: step(node.refs, more), ..node });
    }
}

/// Releases a capability entry and everything its presence was keeping alive.
pub fn cap_release(machine: &mut Machine, domain: usize, handle: u64) -> (released: bool)
    requires
        old(machine).wf(),
        domain < MAX_DOMAINS,
    ensures
        final(machine).wf(),
        final(machine).same_tables(*old(machine)),
        released == cap_lookup(old(machine)@.caps, domain as int, handle) is Some,
        final(machine)@ == if released {
            old(machine)@.release_slot(domain as int, crate::abi::slot_of(handle) as int)
        } else {
            old(machine)@
        },
{
    match machine.cap_named(domain, handle) {
        None => false,
        Some(_) => cap_release_slot(machine, domain, crate::abi::handle_slot(handle) as usize),
    }
}

/// Releases the entry in `slot` whatever generation it carries.
pub fn cap_release_slot(machine: &mut Machine, domain: usize, slot: usize) -> (released: bool)
    requires
        old(machine).wf(),
        domain < MAX_DOMAINS,
        slot < MAX_CAPS,
    ensures
        final(machine).wf(),
        final(machine).same_tables(*old(machine)),
        released == old(machine)@.caps[cap_at(domain as int, slot as int)].live,
        final(machine)@ == old(machine)@.release_slot(domain as int, slot as int),
        is_calm(old(machine)@, final(machine)@),
{
    proof {
        machine.caps_are_ok();
        scopeops::release_slot_touches_one(machine@, domain as int, slot as int);
        reveal(is_calm);
    }
    match machine.empty_cap(domain, slot) {
        None => false,
        Some(entry) => {
            release_entry(machine, domain, entry);
            true
        },
    }
}

fn release_entry(machine: &mut Machine, domain: usize, entry: CapEntry)
    requires
        old(machine).wf(),
        domain < MAX_DOMAINS,
        cap_ok(entry),
    ensures
        final(machine).wf(),
        final(machine).same_tables(*old(machine)),
        final(machine)@ == old(machine)@.release_entry(domain as int, entry),
{
    let owner: u16 = machine.domain(domain).owner_scope;
    machine.uncharge(owner, Resource::Metadata, 1);
    hold_grant(machine, entry.grant, false);
    adjust_object_refs(machine, entry.object, false);
    let i: usize = entry.object.index as usize;
    match entry.object.kind {
        ObjKind::Invocation => {
            collect_invocation(machine, i);
        },
        ObjKind::Memory => {
            // A memory object that nothing names and nothing maps can never be
            // reached again.
            if machine.memory(i).generation == entry.object.generation {
                memops::collect_memory(machine, i);
            }
        },
        _ => {},
    }
    collect_grant(machine, entry.grant);
}

/// Frees an invocation record once it is discharged and nothing names it.
///
/// Discharge and the last reference happen in either order, so both paths end
/// here and whichever is second reclaims the record.
pub fn collect_invocation(machine: &mut Machine, index: usize)
    requires
        old(machine).wf(),
    ensures
        final(machine).wf(),
        final(machine).same_tables(*old(machine)),
        final(machine)@ == if index < MAX_INVOCATIONS {
            old(machine)@.collect_invocation(index as int)
        } else {
            old(machine)@
        },
{
    if index >= MAX_INVOCATIONS {
        return;
    }
    let invocation = machine.invocation(index);
    if invocation.state != crate::ipc::State::Resolved || invocation.refs != 0 {
        return;
    }
    machine.set_invocation(
        index,
        Invocation { generation: invocation.generation, ..Invocation::empty() },
    );
}

/// Frees a grant node once nothing refers to it and it has no children, and
/// then its parent under the same condition.
///
/// A fenced node stays as a tombstone while a descendant or a ticket still
/// needs to walk through it.
pub fn collect_grant(machine: &mut Machine, grant: u16)
    requires
        old(machine).wf(),
        grant_ref_ok(grant),
    ensures
        final(machine).wf(),
        final(machine).same_tables(*old(machine)),
        final(machine)@ == old(machine)@.collect_grant(grant, MAX_DERIVE_DEPTH as nat),
{
    let mut current: u16 = grant;
    let mut steps: u32 = 0;
    while current != NO_GRANT && steps < MAX_DERIVE_DEPTH
        invariant
            machine.wf(),
            machine.same_tables(*old(machine)),
            grant_ref_ok(current),
            steps <= MAX_DERIVE_DEPTH,
            machine@.collect_grant(current, (MAX_DERIVE_DEPTH - steps) as nat)
                == old(machine)@.collect_grant(grant, MAX_DERIVE_DEPTH as nat),
        decreases MAX_DERIVE_DEPTH - steps,
    {
        let node = machine.grant(current as usize);
        if !node.used || node.refs > 0 || node.children > 0 {
            return;
        }
        steps += 1;
        machine.set_grant(current as usize, Grant::empty());
        free_grant_hint(machine, current as usize);
        machine.uncharge(node.sponsor, Resource::Metadata, 1);
        if node.parent != NO_GRANT {
            let parent = machine.grant(node.parent as usize);
            machine.set_grant(
                node.parent as usize,
                Grant { children: parent.children.saturating_sub(1), ..parent },
            );
        }
        current = node.parent;
    }
}

/// Notes that grant node `index` is free again, for the next allocation's
/// search to start no later than it.
pub fn free_grant_hint(machine: &mut Machine, index: usize)
    requires
        old(machine).wf(),
        index < MAX_GRANTS,
    ensures
        final(machine).wf(),
        final(machine).same_tables(*old(machine)),
        final(machine)@ == (MachineModel {
            grant_hint: if index < old(machine)@.grant_hint {
                index
            } else {
                old(machine)@.grant_hint
            },
            ..old(machine)@
        }),
{
    if index < machine.grant_hint {
        machine.set_grant_hint(index);
    }
}

/// Finds the grant node the next allocation takes.
fn find_grant(machine: &Machine) -> (at: usize)
    requires
        machine.wf(),
    ensures
        at == machine@.next_grant(),
        at <= MAX_GRANTS,
{
    let hint: usize = machine.get_grant_hint();
    let mut at: usize = hint;
    while at < MAX_GRANTS && machine.grant(at).used
        invariant
            machine.wf(),
            hint <= at <= MAX_GRANTS,
            first_grant(machine@.grants, hint as int, MAX_GRANTS as int) == first_grant(
                machine@.grants,
                at as int,
                MAX_GRANTS as int,
            ),
        decreases MAX_GRANTS - at,
    {
        at += 1;
    }
    if at < MAX_GRANTS {
        return at;
    }
    at = 0;
    while at < hint && machine.grant(at).used
        invariant
            machine.wf(),
            at <= hint <= MAX_GRANTS,
            first_grant(machine@.grants, 0, hint as int) == first_grant(
                machine@.grants,
                at as int,
                hint as int,
            ),
        decreases hint - at,
    {
        at += 1;
    }
    if at < hint {
        at
    } else {
        MAX_GRANTS
    }
}

/// Allocates a grant node charged to `sponsor`.
pub fn grant_alloc(
    machine: &mut Machine,
    sponsor: u16,
    parent: u16,
    object: ObjRef,
    rights: u32,
    deadline_ns: u64,
    life_scope: Option<u16>,
    facet: u64,
) -> (grant: Option<u16>)
    requires
        old(machine).wf(),
        sponsor < MAX_SCOPES,
        grant_ref_ok(parent),
        ref_ok(object),
        life_scope matches Some(s) ==> s < MAX_SCOPES,
    ensures
        final(machine).wf(),
        final(machine).same_tables(*old(machine)),
        if old(machine)@.can_grant(sponsor, parent) {
            &&& grant == Some(old(machine)@.next_grant() as u16)
            &&& 0 <= old(machine)@.next_grant() < MAX_GRANTS
            &&& final(machine)@ == old(machine)@.granted(
                sponsor,
                parent,
                object,
                rights,
                deadline_ns,
                life_scope,
                facet,
            )
        } else {
            &&& grant is None
            &&& final(machine)@ == old(machine)@
        },
{
    let depth: u32 = if parent == NO_GRANT {
        0
    } else {
        let above: u32 = machine.grant(parent as usize).depth;
        if above >= MAX_DERIVE_DEPTH {
            return None;
        }
        above + 1
    };
    let at: usize = find_grant(machine);
    if at == MAX_GRANTS {
        return None;
    }
    if !machine.affords(sponsor, Resource::Metadata, 1) {
        return None;
    }
    let id: u64 = match machine.take_id() {
        None => {
            return None;
        },
        Some(id) => id,
    };
    let done = machine.charge(sponsor, Resource::Metadata, 1);
    machine.set_grant_hint(at + 1);
    machine.set_grant(
        at,
        Grant {
            used: true,
            id,
            parent,
            depth,
            rights,
            deadline_ns,
            life_scope,
            facet,
            object,
            fenced: false,
            refs: 0,
            children: 0,
            sponsor,
        },
    );
    if parent != NO_GRANT {
        let node = machine.grant(parent as usize);
        machine.set_grant(
            parent as usize,
            Grant { children: node.children.saturating_add(1), ..node },
        );
    }
    Some(at as u16)
}

/// Gives a domain a new grant and a handle on it, or neither.
pub fn mint(
    machine: &mut Machine,
    domain: usize,
    parent: u16,
    object: ObjRef,
    rights: u32,
    deadline_ns: u64,
    life_scope: Option<u16>,
    facet: u64,
) -> (handle: Option<u64>)
    requires
        old(machine).wf(),
        domain < MAX_DOMAINS,
        grant_ref_ok(parent),
        ref_ok(object),
        life_scope matches Some(s) ==> s < MAX_SCOPES,
    ensures
        final(machine).wf(),
        final(machine).same_tables(*old(machine)),
        if old(machine)@.can_mint(domain as int, parent) {
            &&& handle == Some(old(machine)@.minted_handle(domain as int))
            &&& final(machine)@ == old(machine)@.minted(
                domain as int,
                parent,
                object,
                rights,
                deadline_ns,
                life_scope,
                facet,
            )
        } else {
            &&& handle is None
            &&& final(machine)@ == old(machine)@
        },
{
    let owner: u16 = machine.domain(domain).owner_scope;
    if machine.free_cap(domain) >= MAX_CAPS || !machine.affords(owner, Resource::Metadata, 2) {
        return None;
    }
    let ghost before = machine@;
    match grant_alloc(
        machine,
        owner,
        parent,
        object,
        rights,
        deadline_ns,
        life_scope,
        facet,
    ) {
        None => None,
        Some(grant) => {
            proof {
                old(machine).wf_scopes();
                room_splits(
                    before.scopes,
                    owner as int,
                    owner as int,
                    Resource::Metadata,
                    1,
                    1,
                );
            }
            cap_install(machine, domain, object, grant, None)
        },
    }
}

/// Whether a grant node below `parent` fits, on the account of `sponsor`.
pub fn can_grant(machine: &Machine, sponsor: u16, parent: u16) -> (yes: bool)
    requires
        machine.wf(),
        sponsor < MAX_SCOPES,
        grant_ref_ok(parent),
    ensures
        yes == machine@.can_grant(sponsor, parent),
{
    if parent != NO_GRANT && machine.grant(parent as usize).depth >= MAX_DERIVE_DEPTH {
        return false;
    }
    find_grant(machine) < MAX_GRANTS && machine.affords(sponsor, Resource::Metadata, 1)
        && machine.has_id()
}

/// Whether a new grant below `parent` and a handle on it fit.
pub fn can_mint(machine: &Machine, domain: usize, parent: u16) -> (yes: bool)
    requires
        machine.wf(),
        domain < MAX_DOMAINS,
        grant_ref_ok(parent),
    ensures
        yes == machine@.can_mint(domain as int, parent),
{
    let owner: u16 = machine.domain(domain).owner_scope;
    if machine.free_cap(domain) >= MAX_CAPS || !machine.affords(owner, Resource::Metadata, 2) {
        return false;
    }
    proof {
        machine.wf_scopes();
        scope::less_fits(machine@.scopes, owner as int, Resource::Metadata, 1, 2);
    }
    if parent != NO_GRANT && machine.grant(parent as usize).depth >= MAX_DERIVE_DEPTH {
        return false;
    }
    find_grant(machine) < MAX_GRANTS && machine.has_id()
}

/// Charges `sponsor` for the record of a new object and takes its identity, if
/// a grant and a handle for it fit as well.
pub fn claim(machine: &mut Machine, domain: usize, sponsor: u16) -> (id: Option<u64>)
    requires
        old(machine).wf(),
        domain < MAX_DOMAINS,
        sponsor < MAX_SCOPES,
    ensures
        final(machine).wf(),
        final(machine).same_tables(*old(machine)),
        if old(machine)@.can_create(sponsor, domain as int) {
            &&& id == Some(old(machine)@.next_id)
            &&& final(machine)@ == old(machine)@.claimed(sponsor)
        } else {
            &&& id is None
            &&& final(machine)@ == old(machine)@
        },
{
    if !machine.has_id() || !machine.charge(sponsor, Resource::Metadata, 1) {
        return None;
    }
    if machine.next_id == u64::MAX - 1 || !can_mint(machine, domain, NO_GRANT) {
        proof {
            old(machine).wf_scopes();
            scope::release_undoes_reserve(
                old(machine)@.scopes,
                sponsor as int,
                Resource::Metadata,
                1,
            );
        }
        machine.uncharge(sponsor, Resource::Metadata, 1);
        assert(machine@ =~= old(machine)@);
        return None;
    }
    machine.take_id()
}

/// Walks a grant lineage, refusing a barrier, an expiry or a closed scope.
///
/// The walk is bounded by the interface's derivation depth, so a corrupted
/// parent link ends it rather than looping.
pub fn lineage_status(machine: &Machine, grant: u16, now: u64) -> (status: Status)
    requires
        machine.wf(),
    ensures
        status == machine@.lineage_of(grant, now),
{
    let mut current: u16 = grant;
    let mut steps: u32 = 0;
    while current != NO_GRANT
        invariant
            machine.wf(),
            steps <= MAX_DERIVE_DEPTH + 1,
            lineage(
                machine@.grants,
                machine@.scopes,
                current,
                now,
                (MAX_DERIVE_DEPTH + 1 - steps) as nat,
            ) == machine@.lineage_of(grant, now),
        decreases MAX_DERIVE_DEPTH + 1 - steps,
    {
        if steps > MAX_DERIVE_DEPTH || current as usize >= MAX_GRANTS {
            return Status::InvalidHandle;
        }
        steps += 1;
        let node = machine.grant(current as usize);
        if !node.used {
            return Status::InvalidHandle;
        }
        if node.fenced {
            return Status::ScopeClosed;
        }
        if node.deadline_ns != 0 && now >= node.deadline_ns {
            return Status::Expired;
        }
        match node.life_scope {
            Some(life) => {
                if machine.scope(life as usize).state != scope::State::Open {
                    return Status::ScopeClosed;
                }
            },
            None => {},
        }
        // The scope that sponsors a grant is the perimeter the barrier closes:
        // fencing it reaches every capability derived under it, whoever holds
        // it now.
        if machine.scope(node.sponsor as usize).state != scope::State::Open {
            return Status::ScopeClosed;
        }
        current = node.parent;
    }
    Status::Success
}

/// Resolves a handle into a capability the operation may use.
pub fn resolve(
    machine: &Machine,
    domain: usize,
    handle: u64,
    required_type: u32,
    required_rights: u32,
    now: u64,
) -> (result: Result<Resolved, Status>)
    requires
        machine.wf(),
        domain < MAX_DOMAINS,
    ensures
        result == machine@.resolved(domain as int, handle, required_type, required_rights, now),
        result matches Ok(cap) ==> cap_named_ok(cap),
{
    match resolve_entry(machine, domain, handle, required_type, required_rights) {
        Err(code) => Err(code),
        Ok(resolved) => {
            let lineage = lineage_status(machine, resolved.grant, now);
            if lineage != Status::Success {
                return Err(lineage);
            }
            Ok(resolved)
        },
    }
}

/// Resolves a handle whose lineage may already be fenced, expired or orphaned.
///
/// Three operations are about that state rather than acting through it: reading
/// what a grant's lineage still permits, reading what a fenced lineage still
/// holds, and dropping the caller's own handle on it.
pub fn resolve_observer(
    machine: &Machine,
    domain: usize,
    handle: u64,
    required_type: u32,
    required_rights: u32,
) -> (result: Result<Resolved, Status>)
    requires
        machine.wf(),
        domain < MAX_DOMAINS,
    ensures
        result == machine@.resolved_entry(domain as int, handle, required_type, required_rights),
        result matches Ok(cap) ==> cap_named_ok(cap),
{
    resolve_entry(machine, domain, handle, required_type, required_rights)
}

/// The part of resolution that a barrier does not change.
fn resolve_entry(
    machine: &Machine,
    domain: usize,
    handle: u64,
    required_type: u32,
    required_rights: u32,
) -> (result: Result<Resolved, Status>)
    requires
        machine.wf(),
        domain < MAX_DOMAINS,
    ensures
        result == machine@.resolved_entry(domain as int, handle, required_type, required_rights),
        result matches Ok(cap) ==> cap_named_ok(cap),
{
    let entry = match machine.cap_named(domain, handle) {
        None => {
            return Err(Status::InvalidHandle);
        },
        Some(entry) => entry,
    };
    if required_type != object_type::NONE && entry.object.kind.abi_type() != required_type {
        return Err(Status::WrongType);
    }
    if entry.grant as usize >= MAX_GRANTS {
        return Err(Status::InvalidHandle);
    }
    let node = machine.grant(entry.grant as usize);
    if !node.used {
        return Err(Status::InvalidHandle);
    }
    // A capability entry and its grant each name the object; an entry that
    // points at one object through a grant that authorises another would be
    // authority over the wrong thing.
    if node.object != entry.object {
        return Err(Status::InvalidHandle);
    }
    if node.rights & required_rights != required_rights {
        return Err(Status::InsufficientRights);
    }
    if !object_alive(machine, entry.object) {
        return Err(Status::PeerDead);
    }
    Ok(
        Resolved {
            slot: crate::abi::handle_slot(handle) as usize,
            object: entry.object,
            grant: entry.grant,
            rights: node.rights,
            facet: node.facet,
        },
    )
}

/// True when `candidate` is `root` or descends from it in the grant tree.
pub fn grant_within(machine: &Machine, root: u16, candidate: u16) -> (yes: bool)
    requires
        machine.wf(),
    ensures
        yes == machine@.is_grant_within(root, candidate),
{
    let mut current: u16 = candidate;
    let mut steps: u32 = 0;
    while current != NO_GRANT && steps <= MAX_DERIVE_DEPTH + 1
        invariant
            machine.wf(),
            steps <= MAX_DERIVE_DEPTH + 2,
            descends(
                machine@.grants,
                root,
                current,
                (MAX_DERIVE_DEPTH + 2 - steps) as nat,
            ) == machine@.is_grant_within(root, candidate),
        decreases MAX_DERIVE_DEPTH + 2 - steps,
    {
        if current == root {
            return true;
        }
        if current as usize >= MAX_GRANTS {
            return false;
        }
        let node = machine.grant(current as usize);
        if !node.used {
            return false;
        }
        current = node.parent;
        steps += 1;
    }
    false
}

/// Writes a control receipt and wakes a reader that waits for a batch.
pub fn receipt(machine: &mut Machine, stated: Stated, now: u64, reserved: bool) -> (sequence: u64)
    requires
        old(machine).wf(),
    ensures
        final(machine).wf(),
        final(machine).same_tables(*old(machine)),
        final(machine)@ == old(machine)@.receipted(stated, now, reserved),
        sequence == old(machine)@.receipt_sequence(stated.kind, reserved),
{
    let l: u16 = match machine.get_system_log() {
        None => {
            return 0;
        },
        Some(l) => l,
    };
    let domain_id: u64 = if stated.domain < MAX_DOMAINS {
        machine.domain(stated.domain).id
    } else {
        0
    };
    let scope_id: u64 = if (stated.scope as usize) < MAX_SCOPES {
        machine.scope(stated.scope as usize).id
    } else {
        0
    };
    let record = ReceiptRecord {
        schema: crate::ctrl::RECEIPT_SCHEMA,
        kind: stated.kind,
        sequence: 0,
        epoch: machine.boot_epoch,
        ns: now,
        origin_domain_id: domain_id,
        origin_scope_id: scope_id,
        object_id: stated.object,
        grant_id: stated.grant,
        parent_invocation_id: stated.parent,
        result: stated.result.code(),
        a: stated.a,
        b: stated.b,
    };
    let sequence: u64 = machine.write_receipt(l as usize, record, reserved);
    let generation: u32 = machine.log(l as usize).generation;
    wake_reader(machine, l as usize, generation);
    sequence
}

/// Wakes a thread that waits on a log once it holds a full batch for it.
fn wake_reader(machine: &mut Machine, index: usize, generation: u32)
    requires
        old(machine).wf(),
        index < MAX_CONTROL_LOGS,
        generation == old(machine)@.logs[index as int].generation,
    ensures
        final(machine).wf(),
        final(machine).same_tables(*old(machine)),
        final(machine)@ == old(machine)@.wake_reader(index as int),
{
    if machine.log(index).occupied() < LOG_BATCH {
        return;
    }
    wake_first(machine, Wait::Log(index as u16, generation), Status::Success, WakeHint::Any);
}

/// Whether a cell for the receipt of a covered operation is left.
pub fn can_record(machine: &Machine) -> (yes: bool)
    requires
        machine.wf(),
    ensures
        yes == machine@.can_record(),
{
    match machine.get_system_log() {
        None => true,
        Some(l) => {
            let log = machine.log(l as usize);
            assert(log@.live.len() == log.count);
            log.can_reserve()
        },
    }
}

/// Reserves a control-receipt cell before a covered operation is admitted.
///
/// If no cell can be reserved the operation is refused before it has an effect,
/// which is the only way a claim that every covered admission was recorded can
/// be true.
pub fn reserve_receipt(machine: &mut Machine) -> (done: bool)
    requires
        old(machine).wf(),
    ensures
        final(machine).wf(),
        final(machine).same_tables(*old(machine)),
        done == old(machine)@.can_record(),
        final(machine)@ == if done {
            old(machine)@.cell_reserved()
        } else {
            old(machine)@
        },
{
    match machine.get_system_log() {
        None => true,
        Some(l) => machine.reserve_cell(l as usize),
    }
}

/// Returns a receipt reservation an operation did not use.
pub fn release_receipt(machine: &mut Machine)
    requires
        old(machine).wf(),
    ensures
        final(machine).wf(),
        final(machine).same_tables(*old(machine)),
        final(machine)@ == old(machine)@.cell_released(),
{
    match machine.get_system_log() {
        None => {},
        Some(l) => {
            machine.release_cell(l as usize);
        },
    }
}

/// The positions a caller's context holds lie in their tables, and its
/// capability names an object of `kind`.
pub open spec fn ctx_ok(ctx: Ctx, kind: ObjKind) -> bool {
    &&& ctx.domain < MAX_DOMAINS
    &&& ctx.thread < MAX_THREADS
    &&& cap_named_ok(ctx.cap)
    &&& ctx.cap.object.kind == kind
}

/// The positions a resolved capability holds lie in their tables.
pub open spec fn cap_named_ok(cap: Resolved) -> bool {
    ref_ok(cap.object) && cap.grant < MAX_GRANTS && cap.slot < MAX_CAPS
}

} // verus!
