//! Scope operations: create, limit, fence, drain, retire.
//!
//! Fencing is short: it publishes a state, wakes the waits that can be
//! cancelled, withdraws messages nobody has received yet and records a receipt.
//! What is left is reported through the drain status, and retirement is refused
//! while anything remains inside the perimeter.

use vstd::prelude::*;

use crate::abi::receipt_kind;
use crate::abi::request::{DrainReport, ScopeCreateRequest, ScopeInfo, ScopeLimits};
use crate::abi::status::Status;
use crate::api::closing::{mark_cancelled, withdraw_undelivered};
use crate::api::{cap_release_slot, claim, ctx_ok, mint, receipt, Ctx, Stated};
use crate::ctrl::{one_less, one_more};
use crate::events::{Signal, Timer};
use crate::ipc::{self, Endpoint};
use crate::limits::{
    CPU_WINDOW_NS, MAX_CAPS, MAX_DOMAINS, MAX_ENDPOINTS, MAX_INVOCATIONS, MAX_MEMORY_OBJECTS,
    MAX_SCOPES, MAX_SCOPE_DEPTH, MAX_SIGNALS, MAX_THREADS, MAX_TIMERS,
};
use crate::memobj::MemoryObject;
use crate::mm::Owner;
use crate::obj::{cap_at, ObjKind, ObjRef, NO_GRANT};
use crate::scope::{
    fenced, open_within, pending_spec, quiesced, within, Limits, Resource, Scope, State,
};
use crate::state::{is_calm, DomainState, Machine, MachineModel, ThreadState, WakeHint};
use crate::tables::is_leaf;
use crate::thread::{wake, woken};

verus! {

/// The ceilings a request asks for.
pub open spec fn limits_of(request: ScopeLimits) -> Limits {
    Limits {
        memory_pages: request.memory_pages,
        metadata_objects: request.metadata_objects,
        cpu_budget_ns: request.cpu_budget_ns,
        queue_bytes: request.queue_bytes,
        closure_reserve_ns: request.closure_reserve_ns,
        parallelism: request.parallelism,
    }
}

/// The ceilings a request asks for.
fn to_limits(request: &ScopeLimits) -> (limits: Limits)
    ensures
        limits == limits_of(*request),
{
    Limits {
        memory_pages: request.memory_pages,
        metadata_objects: request.metadata_objects,
        cpu_budget_ns: request.cpu_budget_ns,
        queue_bytes: request.queue_bytes,
        closure_reserve_ns: request.closure_reserve_ns,
        parallelism: request.parallelism,
    }
}

/// Ceilings as they are reported.
pub open spec fn reported_limits(limits: Limits) -> ScopeLimits {
    ScopeLimits {
        memory_pages: limits.memory_pages,
        metadata_objects: limits.metadata_objects,
        cpu_budget_ns: limits.cpu_budget_ns,
        queue_bytes: limits.queue_bytes,
        closure_reserve_ns: limits.closure_reserve_ns,
        parallelism: limits.parallelism,
        reserved0: 0,
    }
}

/// Ceilings as they are reported.
fn from_limits(limits: &Limits) -> (reported: ScopeLimits)
    ensures
        reported == reported_limits(*limits),
{
    ScopeLimits {
        memory_pages: limits.memory_pages,
        metadata_objects: limits.metadata_objects,
        cpu_budget_ns: limits.cpu_budget_ns,
        queue_bytes: limits.queue_bytes,
        closure_reserve_ns: limits.closure_reserve_ns,
        parallelism: limits.parallelism,
        reserved0: 0,
    }
}

/// Every ceiling of `child` fits inside `parent`.
pub open spec fn ceilings_fit(child: Limits, parent: Limits) -> bool {
    &&& child.memory_pages <= parent.memory_pages
    &&& child.metadata_objects <= parent.metadata_objects
    &&& child.cpu_budget_ns <= parent.cpu_budget_ns
    &&& child.queue_bytes <= parent.queue_bytes
    &&& child.closure_reserve_ns <= parent.closure_reserve_ns
    &&& child.parallelism <= parent.parallelism
}

/// True when every ceiling in `child` fits inside `parent`.
fn fits(child: &Limits, parent: &Limits) -> (yes: bool)
    ensures
        yes == ceilings_fit(*child, *parent),
{
    child.memory_pages <= parent.memory_pages && child.metadata_objects
        <= parent.metadata_objects && child.cpu_budget_ns <= parent.cpu_budget_ns
        && child.queue_bytes <= parent.queue_bytes && child.closure_reserve_ns
        <= parent.closure_reserve_ns && child.parallelism <= parent.parallelism
}

/// The first free scope slot from `from` on, or [`MAX_SCOPES`].
pub open spec fn first_scope(scopes: Seq<Scope>, from: int) -> int
    decreases MAX_SCOPES - from,
{
    if from >= MAX_SCOPES {
        MAX_SCOPES as int
    } else if scopes[from].state == State::Empty {
        from
    } else {
        first_scope(scopes, from + 1)
    }
}

/// A retired scope that nothing names, that lies above nothing and that holds
/// nothing.
pub open spec fn is_spent(scopes: Seq<Scope>, i: int) -> bool {
    let s = scopes[i];
    &&& s.state == State::Retired
    &&& s.refs == 0
    &&& s.memory_pages == 0
    &&& s.metadata == 0
    &&& s.queue_bytes == 0
    &&& is_leaf(scopes, i)
}

/// The first spent scope from `from` on, or [`MAX_SCOPES`].
pub open spec fn first_spent(scopes: Seq<Scope>, from: int) -> int
    decreases MAX_SCOPES - from,
{
    if from >= MAX_SCOPES {
        MAX_SCOPES as int
    } else if is_spent(scopes, from) {
        from
    } else {
        first_spent(scopes, from + 1)
    }
}

impl MachineModel {
    /// The machine once a spent scope has given up its slot and what its parent
    /// paid for it.
    pub open spec fn scope_collected(self, i: int) -> MachineModel {
        let freed = self.with_scope(i, Scope::empty_spec(self.scopes[i].generation));
        match self.scopes[i].parent {
            None => freed,
            Some(p) => {
                let unpaid = freed.uncharge(p, Resource::Metadata, 1);
                let parent = unpaid.scopes[p as int];
                unpaid.with_scope(
                    p as int,
                    Scope { children: one_less(parent.children), ..parent },
                )
            },
        }
    }

    /// The slot a new scope takes, [`MAX_SCOPES`] when there is none, and the
    /// machine with that slot free.
    pub open spec fn scope_slot(self) -> (MachineModel, int) {
        let empty = first_scope(self.scopes, 0);
        if empty < MAX_SCOPES {
            (self, empty)
        } else {
            let spent = first_spent(self.scopes, 0);
            if spent < MAX_SCOPES {
                (self.scope_collected(spent), spent)
            } else {
                (self, MAX_SCOPES as int)
            }
        }
    }

    /// Why a child scope is not created, before a slot is looked for; nothing
    /// when one is.
    pub open spec fn child_fault(self, ctx: Ctx, request: ScopeCreateRequest) -> Option<Status> {
        let parent = self.scopes[ctx.cap.object.index as int];
        if request.limits.reserved0 != 0 {
            Some(Status::InvalidArgument)
        } else if parent.state != State::Open {
            Some(Status::ScopeClosed)
        } else if parent.depth + 1 >= MAX_SCOPE_DEPTH {
            Some(Status::LimitExhausted)
        } else if !ceilings_fit(limits_of(request.limits), parent.limits) {
            Some(Status::LimitExhausted)
        } else {
            None
        }
    }

    /// The machine once a child scope stands in the free slot `i`.
    pub open spec fn child_created(
        self,
        ctx: Ctx,
        request: ScopeCreateRequest,
        i: int,
    ) -> MachineModel {
        let p = ctx.cap.object.index;
        let generation = one_more(self.scopes[i].generation);
        let owned = self.claimed(p).owned(
            ctx.domain as int,
            ObjRef { kind: ObjKind::Scope, index: i as u16, generation },
            ObjKind::Scope.mask_spec(),
        );
        let counted = owned.with_scope(
            p as int,
            Scope {
                children: one_more(owned.scopes[p as int].children),
                ..owned.scopes[p as int]
            },
        );
        counted.with_scope(
            i,
            Scope {
                state: State::Open,
                id: self.next_id,
                parent: Some(p),
                depth: (self.scopes[p as int].depth + 1) as u32,
                label: request.label,
                limits: limits_of(request.limits),
                window_index: ctx.now / CPU_WINDOW_NS,
                refs: 1,
                ..Scope::empty_spec(generation)
            },
        )
    }

    /// State of a scope in the window of `now`; `pending` is what processors have
    /// spent for it and not yet charged.
    pub open spec fn scope_info(self, i: int, pending: u64, now: u64) -> ScopeInfo {
        let node = self.scopes[i];
        let window = now / CPU_WINDOW_NS;
        ScopeInfo {
            limits: reported_limits(node.limits),
            state: node.state.abi_spec(),
            depth: node.depth,
            parallelism_used: node.parallelism_used,
            threads: node.threads,
            scope_id: node.id,
            parent_scope_id: match node.parent {
                Some(p) => self.scopes[p as int].id,
                None => 0,
            },
            memory_pages_used: node.memory_pages,
            metadata_used: node.metadata,
            queue_bytes_used: node.queue_bytes,
            cpu_window_used_ns: sum(
                if node.window_index == window {
                    node.cpu_window_ns
                } else {
                    0
                },
                pending,
            ),
            cpu_total_ns: sum(node.cpu_total_ns, pending),
            cpu_debt_ns: node.cpu_debt_ns,
            closure_used_ns: node.closure_used_ns,
            window_index: window,
        }
    }

    /// Why the ceilings of a scope are not changed, or nothing when they are.
    pub open spec fn limits_fault(self, ctx: Ctx, request: ScopeLimits) -> Option<Status> {
        let node = self.scopes[ctx.cap.object.index as int];
        let limits = limits_of(request);
        if request.reserved0 != 0 {
            Some(Status::InvalidArgument)
        } else if node.state != State::Open {
            Some(Status::ScopeClosed)
        } else if node.parent matches Some(p) && !ceilings_fit(
            limits,
            self.scopes[p as int].limits,
        ) {
            Some(Status::LimitExhausted)
        } else if limits.memory_pages < node.memory_pages || limits.metadata_objects
            < node.metadata || limits.queue_bytes < node.queue_bytes {
            Some(Status::StateConflict)
        } else {
            None
        }
    }

    /// A thread that waits and belongs to a perimeter, by the scope it works
    /// for or the one it was made in.
    pub open spec fn waits_within(self, t: int, root: int) -> bool {
        let thread = self.threads[t];
        &&& thread.state == ThreadState::Blocked
        &&& within(self.scopes, root, thread.effective_scope as int) || within(
            self.scopes,
            root,
            thread.owner_scope as int,
        )
    }

    /// The machine once the waits of a perimeter have been cancelled.
    pub open spec fn waits_cancelled(self, root: int) -> MachineModel {
        MachineModel {
            threads: Seq::new(
                self.threads.len(),
                |t: int|
                    if self.waits_within(t, root) {
                        woken(self.threads[t], Status::Cancelled, WakeHint::Any)
                    } else {
                        self.threads[t]
                    },
            ),
            ..self
        }
    }

    /// The machine once a scope has been fenced.
    pub open spec fn scope_fenced(self, ctx: Ctx) -> MachineModel {
        let root = ctx.cap.object.index;
        let barred = MachineModel { scopes: fenced(self.scopes, root as int), ..self };
        let (cut, withdrawn) = barred.waits_cancelled(root as int).withdrawn(
            root as int,
            ctx.now,
            MAX_ENDPOINTS as nat,
        );
        let marked = cut.marked_cancelled(root as int);
        let told = marked.receipted(
            Stated {
                kind: receipt_kind::FENCE,
                domain: ctx.domain,
                scope: root,
                object: marked.scopes[root as int].id,
                grant: 0,
                parent: 0,
                result: Status::Success,
                a: open_within(self.scopes, root as int, MAX_SCOPES as int) as u64,
                b: withdrawn as u64,
            },
            ctx.now,
            false,
        );
        MachineModel { scopes: quiesced(told.scopes, ctx.now), ..told }
    }

    /// What a perimeter still holds.
    pub open spec fn scope_report(self, root: int) -> DrainReport {
        let node = self.scopes[root];
        let held = pending_spec(self.scopes, root);
        DrainReport {
            state: node.state.abi_spec(),
            threads_running: held.threads,
            invocations_pending: held.invocations,
            effects_pending: held.effects,
            maps_pending: held.maps,
            undelivered_cancelled: held.undelivered,
            retained_pages: held.pages,
            retained_metadata: held.metadata,
            last_progress_ns: node.last_progress_ns,
            token: node.drain_token,
        }
    }

    /// The machine once scopes that hold nothing are marked quiescent.
    pub open spec fn settled(self, now: u64) -> MachineModel {
        MachineModel { scopes: quiesced(self.scopes, now), ..self }
    }

    /// The machine once the first `n` slots of a domain's table no longer name
    /// an object.
    pub open spec fn withdrawn_slots(self, o: ObjRef, domain: int, n: nat) -> MachineModel
        decreases n,
    {
        if n == 0 {
            self
        } else {
            let before = self.withdrawn_slots(o, domain, (n - 1) as nat);
            let entry = before.caps[cap_at(domain, n - 1)];
            if entry.live && entry.object == o {
                before.release_slot(domain, n - 1)
            } else {
                before
            }
        }
    }

    /// The machine once the tables of the first `n` domains in use no longer
    /// name an object.
    pub open spec fn withdrawn_everywhere(self, o: ObjRef, n: nat) -> MachineModel
        decreases n,
    {
        if n == 0 {
            self
        } else {
            let before = self.withdrawn_everywhere(o, (n - 1) as nat);
            if before.domains[n - 1].state == DomainState::Empty {
                before
            } else {
                before.withdrawn_slots(o, n - 1, MAX_CAPS as nat)
            }
        }
    }

    /// The machine once a memory object has been freed because its perimeter
    /// retired. Withdrawing the last capability may have freed it already.
    pub open spec fn memory_retired(self, i: int) -> MachineModel {
        let object = self.memories[i];
        let cut = self.withdrawn_everywhere(
            ObjRef { kind: ObjKind::Memory, index: i as u16, generation: object.generation },
            MAX_DOMAINS as nat,
        );
        if cut.memories[i].state == crate::memobj::State::Empty {
            cut
        } else {
            cut.frames_back(
                object.base,
                object.pages as u64,
                Owner::Scope(object.sponsor),
                true,
            ).uncharge(object.sponsor, Resource::MemoryPages, object.pages as u64).uncharge(
                object.sponsor,
                Resource::Metadata,
                1,
            ).with_memory(
                i,
                MemoryObject { generation: object.generation, ..MemoryObject::empty_spec() },
            )
        }
    }

    /// A memory object of a perimeter that nothing maps.
    pub open spec fn is_retirable(self, i: int, root: int) -> bool {
        let object = self.memories[i];
        &&& object.state != crate::memobj::State::Empty
        &&& within(self.scopes, root, object.sponsor as int)
        &&& object.map_count == 0
    }

    /// The machine, the pages and the objects freed once the first `n` memory
    /// objects have been considered.
    pub open spec fn memories_retired(self, root: int, n: nat) -> (MachineModel, u64, u64)
        decreases n,
    {
        if n == 0 {
            (self, 0, 0)
        } else {
            let (before, pages, objects) = self.memories_retired(root, (n - 1) as nat);
            if before.is_retirable(n - 1, root) {
                (
                    before.memory_retired(n - 1),
                    sum(pages, before.memories[n - 1].pages as u64),
                    sum(objects, 1),
                )
            } else {
                (before, pages, objects)
            }
        }
    }

    /// The machine and the objects freed once the first `n` endpoints have been
    /// considered.
    pub open spec fn endpoints_retired(self, root: int, n: nat) -> (MachineModel, u64)
        decreases n,
    {
        if n == 0 {
            (self, 0)
        } else {
            let (before, objects) = self.endpoints_retired(root, (n - 1) as nat);
            let i = n - 1;
            let v = before.endpoints[i];
            if v.used && within(before.scopes, root, v.owner_scope as int) {
                let o = ObjRef {
                    kind: ObjKind::Endpoint,
                    index: i as u16,
                    generation: v.generation,
                };
                (
                    before.withdrawn_everywhere(o, MAX_DOMAINS as nat).uncharge(
                        v.owner_scope,
                        Resource::Metadata,
                        1,
                    ).with_endpoint(
                        i,
                        Endpoint { generation: v.generation, ..Endpoint::empty_spec() },
                    ),
                    sum(objects, 1),
                )
            } else {
                (before, objects)
            }
        }
    }

    /// The machine and the objects freed once the first `n` signals have been
    /// considered.
    pub open spec fn signals_retired(self, root: int, n: nat) -> (MachineModel, u64)
        decreases n,
    {
        if n == 0 {
            (self, 0)
        } else {
            let (before, objects) = self.signals_retired(root, (n - 1) as nat);
            let i = n - 1;
            let v = before.signals[i];
            if v.used && within(before.scopes, root, v.owner_scope as int) {
                let o = ObjRef {
                    kind: ObjKind::Signal,
                    index: i as u16,
                    generation: v.generation,
                };
                (
                    before.withdrawn_everywhere(o, MAX_DOMAINS as nat).uncharge(
                        v.owner_scope,
                        Resource::Metadata,
                        1,
                    ).with_signal(
                        i,
                        Signal { generation: v.generation, ..Signal::empty_spec() },
                    ),
                    sum(objects, 1),
                )
            } else {
                (before, objects)
            }
        }
    }

    /// The machine and the objects freed once the first `n` timers have been
    /// considered.
    pub open spec fn timers_retired(self, root: int, n: nat) -> (MachineModel, u64)
        decreases n,
    {
        if n == 0 {
            (self, 0)
        } else {
            let (before, objects) = self.timers_retired(root, (n - 1) as nat);
            let i = n - 1;
            let v = before.timers[i];
            if v.used && within(before.scopes, root, v.owner_scope as int) {
                let o = ObjRef {
                    kind: ObjKind::Timer,
                    index: i as u16,
                    generation: v.generation,
                };
                (
                    before.withdrawn_everywhere(o, MAX_DOMAINS as nat).uncharge(
                        v.owner_scope,
                        Resource::Metadata,
                        1,
                    ).with_timer(i, Timer { generation: v.generation, ..Timer::empty_spec() }),
                    sum(objects, 1),
                )
            } else {
                (before, objects)
            }
        }
    }

    /// The machine, the pages and the objects freed once everything a perimeter
    /// sponsored is gone.
    pub open spec fn sponsored_released(self, root: int) -> (MachineModel, u64, u64) {
        let (a, pages, memories) = self.memories_retired(root, MAX_MEMORY_OBJECTS as nat);
        let (b, endpoints) = a.endpoints_retired(root, MAX_ENDPOINTS as nat);
        let (c, signals) = b.signals_retired(root, MAX_SIGNALS as nat);
        let (d, timers) = c.timers_retired(root, MAX_TIMERS as nat);
        (d, pages, sum(sum(sum(memories, endpoints), signals), timers))
    }

    /// The machine with every scope in use within `root` marked retired.
    pub open spec fn marked_retired(self, root: int) -> MachineModel {
        MachineModel {
            scopes: Seq::new(
                self.scopes.len(),
                |i: int|
                    if self.scopes[i].state != State::Empty && within(self.scopes, root, i) {
                        Scope { state: State::Retired, ..self.scopes[i] }
                    } else {
                        self.scopes[i]
                    },
            ),
            ..self
        }
    }

    /// The machine once a quiescent scope has been retired.
    pub open spec fn scope_retired(self, ctx: Ctx) -> MachineModel {
        let root = ctx.cap.object.index;
        let freed = self.sponsored_released(root as int).0;
        freed.marked_retired(root as int).receipted(
            Stated {
                kind: receipt_kind::RETIRE,
                domain: ctx.domain,
                scope: root,
                object: freed.scopes[root as int].id,
                grant: 0,
                parent: 0,
                result: Status::Success,
                a: freed.scopes[root as int].memory_pages,
                b: freed.scopes[root as int].metadata,
            },
            ctx.now,
            false,
        )
    }

    /// Invocations among the first `n` that are still owed within `root`.
    pub open spec fn owed_within(self, root: int, n: int) -> nat
        decreases n,
    {
        if n <= 0 {
            0
        } else if self.is_owed_within(n - 1, root) {
            self.owed_within(root, n - 1) + 1
        } else {
            self.owed_within(root, n - 1)
        }
    }
}

/// `a + b`, or the largest number where that overflows.
pub open spec fn sum(a: u64, b: u64) -> u64 {
    if a + b <= u64::MAX {
        (a + b) as u64
    } else {
        u64::MAX
    }
}

/// Whether no scope has `i` as its parent.
fn lies_above_nothing(machine: &Machine, i: usize) -> (yes: bool)
    requires
        machine.wf(),
        i < MAX_SCOPES,
    ensures
        yes == is_leaf(machine@.scopes, i as int),
{
    proof {
        machine.wf_scopes();
    }
    for k in 0..MAX_SCOPES
        invariant
            machine.wf(),
            machine@.scopes.len() == MAX_SCOPES,
            forall|j: int|
                0 <= j < k ==> (#[trigger] machine@.scopes[j].parent matches Some(p) ==> p != i),
    {
        match machine.scope(k).parent {
            Some(p) => {
                if p as usize == i {
                    assert(machine@.scopes[k as int].parent == Some(p));
                    return false;
                }
            },
            None => {},
        }
    }
    true
}

/// Frees the slot of a spent scope.
fn collect_scope(machine: &mut Machine, i: usize)
    requires
        old(machine).wf(),
        i < MAX_SCOPES,
        is_spent(old(machine)@.scopes, i as int),
    ensures
        final(machine).wf(),
        final(machine).same_tables(*old(machine)),
        final(machine)@ == old(machine)@.scope_collected(i as int),
{
    let node = machine.scope(i);
    machine.free_scope(i, Scope::empty(node.generation));
    match node.parent {
        None => {},
        Some(p) => {
            machine.uncharge(p, Resource::Metadata, 1);
            let parent = machine.scope(p as usize);
            machine.set_scope(
                p as usize,
                Scope { children: parent.children.saturating_sub(1), ..parent },
            );
        },
    }
}

/// Finds a slot for a new scope: a free one, or that of a spent scope.
fn find_slot(machine: &mut Machine) -> (slot: usize)
    requires
        old(machine).wf(),
    ensures
        final(machine).wf(),
        final(machine).same_tables(*old(machine)),
        (final(machine)@, slot as int) == old(machine)@.scope_slot(),
        slot <= MAX_SCOPES,
        slot < MAX_SCOPES ==> final(machine)@.scopes[slot as int].state == State::Empty,
{
    proof {
        machine.wf_scopes();
    }
    for i in 0..MAX_SCOPES
        invariant
            *machine == *old(machine),
            machine.wf(),
            first_scope(machine@.scopes, 0) == first_scope(machine@.scopes, i as int),
    {
        if machine.scope(i).state == State::Empty {
            return i;
        }
    }
    for i in 0..MAX_SCOPES
        invariant
            *machine == *old(machine),
            machine.wf(),
            machine@.scopes.len() == MAX_SCOPES,
            first_scope(machine@.scopes, 0) == MAX_SCOPES,
            first_spent(machine@.scopes, 0) == first_spent(machine@.scopes, i as int),
    {
        let node = machine.scope(i);
        if node.state == State::Retired && node.refs == 0 && node.memory_pages == 0
            && node.metadata == 0 && node.queue_bytes == 0 && lies_above_nothing(machine, i) {
            let ghost parent = node.parent;
            proof {
                if parent is Some {
                    assert(parent->0 != i) by {
                        assert(machine@.scopes[i as int].parent == parent);
                    }
                }
            }
            collect_scope(machine, i);
            return i;
        }
    }
    MAX_SCOPES
}

/// Creates a child scope whose every ceiling fits inside this one.
///
/// A ceiling that fitted would still not multiply anything: the child's usage
/// is added to every ancestor as it is spent. The check refuses a limit that
/// could never be honoured at configuration time.
pub fn create_child(machine: &mut Machine, ctx: &Ctx, request: &ScopeCreateRequest) -> (result:
    Result<u64, Status>)
    requires
        old(machine).wf(),
        ctx_ok(*ctx, ObjKind::Scope),
    ensures
        final(machine).wf(),
        final(machine).same_tables(*old(machine)),
        match old(machine)@.child_fault(*ctx, *request) {
            Some(code) => {
                &&& result == Err::<u64, Status>(code)
                &&& final(machine)@ == old(machine)@
            },
            None => {
                let (m, slot) = old(machine)@.scope_slot();
                if slot == MAX_SCOPES || !m.can_create(ctx.cap.object.index, ctx.domain as int) {
                    &&& result == Err::<u64, Status>(Status::LimitExhausted)
                    &&& final(machine)@ == m
                } else {
                    &&& result == Ok::<u64, Status>(m.minted_handle(ctx.domain as int))
                    &&& final(machine)@ == m.child_created(*ctx, *request, slot)
                }
            },
        },
{
    if request.limits.reserved0 != 0 {
        return Err(Status::InvalidArgument);
    }
    let parent: u16 = ctx.cap.object.index;
    let node = machine.scope(parent as usize);
    if node.state != State::Open {
        return Err(Status::ScopeClosed);
    }
    if node.depth >= MAX_SCOPE_DEPTH - 1 {
        return Err(Status::LimitExhausted);
    }
    let depth: u32 = node.depth + 1;
    let limits = to_limits(&request.limits);
    if !fits(&limits, &node.limits) {
        return Err(Status::LimitExhausted);
    }
    let ghost first = machine@;
    proof {
        machine.wf_scopes();
    }
    let slot: usize = find_slot(machine);
    if slot == MAX_SCOPES {
        return Err(Status::LimitExhausted);
    }
    let ghost m = machine@;
    proof {
        machine.wf_scopes();
        slot_keeps_open(first, parent as int);
    }
    let id: u64 = match claim(machine, ctx.domain, parent) {
        None => {
            return Err(Status::LimitExhausted);
        },
        Some(id) => id,
    };
    let generation: u32 = machine.scope(slot).generation.saturating_add(1);
    let object = ObjRef { kind: ObjKind::Scope, index: slot as u16, generation };
    let handle: u64 = match mint(
        machine,
        ctx.domain,
        NO_GRANT,
        object,
        ObjKind::Scope.rights_mask(),
        0,
        None,
        0,
    ) {
        None => {
            return Err(Status::LimitExhausted);
        },
        Some(handle) => handle,
    };
    let above = machine.scope(parent as usize);
    proof {
        minting_keeps_states(
            m,
            parent,
            ctx.domain as int,
            object,
            ObjKind::Scope.mask_spec(),
        );
    }
    machine.set_scope(
        parent as usize,
        Scope { children: above.children.saturating_add(1), ..above },
    );
    let window: u64 = ctx.now / CPU_WINDOW_NS;
    machine.put_scope(
        slot,
        Scope {
            state: State::Open,
            id,
            parent: Some(parent),
            depth,
            label: request.label,
            limits,
            window_index: window,
            refs: 1,
            ..Scope::empty(generation)
        },
    );
    Ok(handle)
}

/// Freeing a spent scope leaves an open one as it is, what it is charged apart.
proof fn slot_keeps_open(m: MachineModel, p: int)
    requires
        crate::scope::scopes_wf(m.scopes),
        0 <= p < MAX_SCOPES,
        m.scopes[p].state == State::Open,
    ensures
        m.scope_slot().0.scopes[p].state == State::Open,
        m.scope_slot().0.scopes[p].depth == m.scopes[p].depth,
{
    first_spent_is_spent(m.scopes, 0);
}

proof fn first_spent_is_spent(scopes: Seq<Scope>, from: int)
    requires
        0 <= from,
    ensures
        first_spent(scopes, from) < MAX_SCOPES ==> {
            &&& from <= first_spent(scopes, from)
            &&& is_spent(scopes, first_spent(scopes, from))
        },
    decreases MAX_SCOPES - from,
{
    if from < MAX_SCOPES && !is_spent(scopes, from) {
        first_spent_is_spent(scopes, from + 1);
    }
}

/// Claiming and minting move no scope in the tree and change no state.
proof fn minting_keeps_states(m: MachineModel, sponsor: u16, domain: int, o: ObjRef, rights: u32)
    requires
        crate::scope::scopes_wf(m.scopes),
        crate::state::ref_ok(o),
    ensures
        ({
            let after = m.claimed(sponsor).owned(domain, o, rights);
            &&& after.scopes.len() == m.scopes.len()
            &&& forall|i: int|
                0 <= i < MAX_SCOPES ==> (#[trigger] after.scopes[i]).state == m.scopes[i].state
                    && after.scopes[i].depth == m.scopes[i].depth
        }),
{
}

/// Reports limits, consumption and debt; `pending` is what processors have
/// spent for the scope and not yet charged.
///
/// The window is that of the entry: what was spent in an earlier one does not
/// count against it.
pub fn query(machine: &Machine, ctx: &Ctx, pending: u64) -> (info: ScopeInfo)
    requires
        machine.wf(),
        ctx_ok(*ctx, ObjKind::Scope),
    ensures
        info == machine@.scope_info(ctx.cap.object.index as int, pending, ctx.now),
{
    let window: u64 = ctx.now / CPU_WINDOW_NS;
    let node = machine.scope(ctx.cap.object.index as usize);
    ScopeInfo {
        limits: from_limits(&node.limits),
        state: node.state.abi(),
        depth: node.depth,
        parallelism_used: node.parallelism_used,
        threads: node.threads,
        scope_id: node.id,
        parent_scope_id: match node.parent {
            Some(p) => machine.scope(p as usize).id,
            None => 0,
        },
        memory_pages_used: node.memory_pages,
        metadata_used: node.metadata,
        queue_bytes_used: node.queue_bytes,
        cpu_window_used_ns: if node.window_index == window {
            node.cpu_window_ns.saturating_add(pending)
        } else {
            pending
        },
        cpu_total_ns: node.cpu_total_ns.saturating_add(pending),
        cpu_debt_ns: node.cpu_debt_ns,
        closure_used_ns: node.closure_used_ns,
        window_index: window,
    }
}

/// Changes the ceilings of an open scope, within the parent's.
///
/// A limit is never lowered below what the subtree already holds: that would
/// turn an accounted charge into a debt nobody agreed to.
pub fn set_limits(machine: &mut Machine, ctx: &Ctx, request: &ScopeLimits) -> (result: Result<
    u64,
    Status,
>)
    requires
        old(machine).wf(),
        ctx_ok(*ctx, ObjKind::Scope),
    ensures
        final(machine).wf(),
        final(machine).same_tables(*old(machine)),
        match old(machine)@.limits_fault(*ctx, *request) {
            Some(code) => {
                &&& result == Err::<u64, Status>(code)
                &&& final(machine)@ == old(machine)@
            },
            None => {
                let i = ctx.cap.object.index as int;
                &&& result == Ok::<u64, Status>(0)
                &&& final(machine)@ == old(machine)@.with_scope(
                    i,
                    Scope { limits: limits_of(*request), ..old(machine)@.scopes[i] },
                )
            },
        },
{
    if request.reserved0 != 0 {
        return Err(Status::InvalidArgument);
    }
    let i: usize = ctx.cap.object.index as usize;
    let node = machine.scope(i);
    if node.state != State::Open {
        return Err(Status::ScopeClosed);
    }
    let limits = to_limits(request);
    match node.parent {
        Some(p) => {
            let parent = machine.scope(p as usize);
            if !fits(&limits, &parent.limits) {
                return Err(Status::LimitExhausted);
            }
        },
        None => {},
    }
    if limits.memory_pages < node.memory_pages || limits.metadata_objects < node.metadata
        || limits.queue_bytes < node.queue_bytes {
        return Err(Status::StateConflict);
    }
    machine.set_scope(i, Scope { limits, ..node });
    Ok(0)
}

/// Wakes every thread whose wait belongs to a closed scope.
fn cancel_waits(machine: &mut Machine, root: u16)
    requires
        old(machine).wf(),
        root < MAX_SCOPES,
    ensures
        final(machine).wf(),
        final(machine).same_tables(*old(machine)),
        final(machine)@ == old(machine)@.waits_cancelled(root as int),
{
    let ghost before = machine@;
    proof {
        machine.wf_sized();
    }
    for t in 0..MAX_THREADS
        invariant
            machine.wf(),
            machine.same_tables(*old(machine)),
            root < MAX_SCOPES,
            before.threads.len() == MAX_THREADS,
            machine@ == (MachineModel { threads: machine@.threads, ..before }),
            machine@.threads.len() == before.threads.len(),
            forall|k: int|
                0 <= k < MAX_THREADS ==> #[trigger] machine@.threads[k] == if k < t {
                    before.waits_cancelled(root as int).threads[k]
                } else {
                    before.threads[k]
                },
    {
        let thread = machine.thread(t);
        if thread.state == ThreadState::Blocked && (machine.scope_within(
            root,
            thread.effective_scope,
        ) || machine.scope_within(root, thread.owner_scope)) {
            wake(machine, t, Status::Cancelled, WakeHint::Any);
        }
    }
    assert(machine@ =~= before.waits_cancelled(root as int));
}

/// Places the barrier and reports how many scopes it closed.
pub fn fence(machine: &mut Machine, ctx: &Ctx) -> (result: Result<u64, Status>)
    requires
        old(machine).wf(),
        ctx_ok(*ctx, ObjKind::Scope),
    ensures
        final(machine).wf(),
        final(machine).same_tables(*old(machine)),
        final(machine)@ == old(machine)@.scope_fenced(*ctx),
        result == Ok::<u64, Status>(
            open_within(
                old(machine)@.scopes,
                ctx.cap.object.index as int,
                MAX_SCOPES as int,
            ) as u64,
        ),
{
    let root: u16 = ctx.cap.object.index;
    let closed: u32 = machine.fence_scopes(root);
    cancel_waits(machine, root);
    let withdrawn: u32 = withdraw_undelivered(machine, root, ctx.now);
    mark_cancelled(machine, root);
    let id: u64 = machine.scope(root as usize).id;
    receipt(
        machine,
        Stated {
            kind: receipt_kind::FENCE,
            domain: ctx.domain,
            scope: root,
            object: id,
            grant: 0,
            parent: 0,
            result: Status::Success,
            a: closed as u64,
            b: withdrawn as u64,
        },
        ctx.now,
        false,
    );
    machine.advance_quiescence(ctx.now);
    Ok(closed as u64)
}

fn report(machine: &mut Machine, root: u16, now: u64) -> (report: DrainReport)
    requires
        old(machine).wf(),
        root < MAX_SCOPES,
    ensures
        final(machine).wf(),
        final(machine).same_tables(*old(machine)),
        final(machine)@ == old(machine)@.settled(now),
        report == final(machine)@.scope_report(root as int),
{
    machine.advance_quiescence(now);
    let held = machine.pending(root);
    let node = machine.scope(root as usize);
    DrainReport {
        state: node.state.abi(),
        threads_running: held.threads,
        invocations_pending: held.invocations,
        effects_pending: held.effects,
        maps_pending: held.maps,
        undelivered_cancelled: held.undelivered,
        retained_pages: held.pages,
        retained_metadata: held.metadata,
        last_progress_ns: node.last_progress_ns,
        token: node.drain_token,
    }
}

/// Reports the obligations still inside the perimeter.
pub fn drain_status(machine: &mut Machine, ctx: &Ctx) -> (value: DrainReport)
    requires
        old(machine).wf(),
        ctx_ok(*ctx, ObjKind::Scope),
    ensures
        final(machine).wf(),
        final(machine).same_tables(*old(machine)),
        final(machine)@ == old(machine)@.settled(ctx.now),
        value == final(machine)@.scope_report(ctx.cap.object.index as int),
{
    report(machine, ctx.cap.object.index, ctx.now)
}

/// Withdraws every capability that names an object, wherever it is held.
///
/// A retired object's table slot is reused, and its generation is what stops an
/// old handle from naming the next occupant. Withdrawing the entries as well
/// releases the grant and the metadata behind each to whoever was paying.
fn withdraw_everywhere(machine: &mut Machine, object: ObjRef)
    requires
        old(machine).wf(),
    ensures
        final(machine).wf(),
        final(machine).same_tables(*old(machine)),
        final(machine)@ == old(machine)@.withdrawn_everywhere(object, MAX_DOMAINS as nat),
        final(machine)@.maps == old(machine)@.maps,
{
    for domain in 0..MAX_DOMAINS
        invariant
            machine.wf(),
            machine.same_tables(*old(machine)),
            machine@ == old(machine)@.withdrawn_everywhere(object, domain as nat),
            machine@.maps == old(machine)@.maps,
    {
        if machine.domain(domain).state != DomainState::Empty {
            let ghost before = machine@;
            for slot in 0..MAX_CAPS
                invariant
                    machine.wf(),
                    machine.same_tables(*old(machine)),
                    domain < MAX_DOMAINS,
                    machine@ == before.withdrawn_slots(object, domain as int, slot as nat),
                    machine@.maps == old(machine)@.maps,
            {
                let entry = machine.cap(domain, slot);
                if entry.live && entry.object == object {
                    cap_release_slot(machine, domain, slot);
                    proof {
                        reveal(is_calm);
                    }
                }
            }
        }
    }
}

/// Frees the memory objects a perimeter sponsored and nothing maps; returns how
/// many pages and objects.
fn retire_memories(machine: &mut Machine, root: u16) -> (freed: (u64, u64))
    requires
        old(machine).wf(),
        root < MAX_SCOPES,
    ensures
        final(machine).wf(),
        final(machine).same_tables(*old(machine)),
        (final(machine)@, freed.0, freed.1) == old(machine)@.memories_retired(
            root as int,
            MAX_MEMORY_OBJECTS as nat,
        ),
{
    let mut pages: u64 = 0;
    let mut objects: u64 = 0;
    for i in 0..MAX_MEMORY_OBJECTS
        invariant
            machine.wf(),
            machine.same_tables(*old(machine)),
            root < MAX_SCOPES,
            (machine@, pages, objects) == old(machine)@.memories_retired(root as int, i as nat),
    {
        let object = machine.memory(i);
        if object.state != crate::memobj::State::Empty && machine.scope_within(
            root,
            object.sponsor,
        ) && object.map_count == 0 {
            proof {
                machine.wf_sized();
                machine.wf_stands();
                machine@.backing().uncounted_is_unmapped(i as int);
            }
            withdraw_everywhere(
                machine,
                ObjRef {
                    kind: ObjKind::Memory,
                    index: i as u16,
                    generation: object.generation,
                },
            );
            // Withdrawing its last capability may have freed it already.
            if machine.memory(i).state != crate::memobj::State::Empty {
                machine.give_back(
                    object.base,
                    object.pages as u64,
                    Owner::Scope(object.sponsor),
                    true,
                );
                machine.uncharge(object.sponsor, Resource::MemoryPages, object.pages as u64);
                machine.uncharge(object.sponsor, Resource::Metadata, 1);
                machine.set_memory(
                    i,
                    MemoryObject { generation: object.generation, ..MemoryObject::empty() },
                );
            }
            pages = pages.saturating_add(object.pages as u64);
            objects = objects.saturating_add(1);
        }
    }
    (pages, objects)
}

/// Frees the endpoints a perimeter sponsored; returns how many.
fn retire_endpoints(machine: &mut Machine, root: u16) -> (objects: u64)
    requires
        old(machine).wf(),
        root < MAX_SCOPES,
    ensures
        final(machine).wf(),
        final(machine).same_tables(*old(machine)),
        (final(machine)@, objects) == old(machine)@.endpoints_retired(root as int, MAX_ENDPOINTS as nat),
{
    let mut objects: u64 = 0;
    for i in 0..MAX_ENDPOINTS
        invariant
            machine.wf(),
            machine.same_tables(*old(machine)),
            root < MAX_SCOPES,
            (machine@, objects) == old(machine)@.endpoints_retired(root as int, i as nat),
    {
        let endpoint = machine.endpoint(i);
        if endpoint.used && machine.scope_within(root, endpoint.owner_scope) {
            withdraw_everywhere(
                machine,
                ObjRef {
                    kind: ObjKind::Endpoint,
                    index: i as u16,
                    generation: endpoint.generation,
                },
            );
            machine.uncharge(endpoint.owner_scope, Resource::Metadata, 1);
            machine.set_endpoint(
                i,
                Endpoint { generation: endpoint.generation, ..Endpoint::empty() },
            );
            objects = objects.saturating_add(1);
        }
    }
    objects
}

/// Frees the signals a perimeter sponsored; returns how many.
fn retire_signals(machine: &mut Machine, root: u16) -> (objects: u64)
    requires
        old(machine).wf(),
        root < MAX_SCOPES,
    ensures
        final(machine).wf(),
        final(machine).same_tables(*old(machine)),
        (final(machine)@, objects) == old(machine)@.signals_retired(root as int, MAX_SIGNALS as nat),
{
    let mut objects: u64 = 0;
    for i in 0..MAX_SIGNALS
        invariant
            machine.wf(),
            machine.same_tables(*old(machine)),
            root < MAX_SCOPES,
            (machine@, objects) == old(machine)@.signals_retired(root as int, i as nat),
    {
        let signal = machine.signal(i);
        if signal.used && machine.scope_within(root, signal.owner_scope) {
            withdraw_everywhere(
                machine,
                ObjRef {
                    kind: ObjKind::Signal,
                    index: i as u16,
                    generation: signal.generation,
                },
            );
            machine.uncharge(signal.owner_scope, Resource::Metadata, 1);
            machine.set_signal(
                i,
                Signal { generation: signal.generation, ..Signal::empty() },
            );
            objects = objects.saturating_add(1);
        }
    }
    objects
}

/// Frees the timers a perimeter sponsored; returns how many.
fn retire_timers(machine: &mut Machine, root: u16) -> (objects: u64)
    requires
        old(machine).wf(),
        root < MAX_SCOPES,
    ensures
        final(machine).wf(),
        final(machine).same_tables(*old(machine)),
        (final(machine)@, objects) == old(machine)@.timers_retired(root as int, MAX_TIMERS as nat),
{
    let mut objects: u64 = 0;
    for i in 0..MAX_TIMERS
        invariant
            machine.wf(),
            machine.same_tables(*old(machine)),
            root < MAX_SCOPES,
            (machine@, objects) == old(machine)@.timers_retired(root as int, i as nat),
    {
        let timer = machine.timer(i);
        if timer.used && machine.scope_within(root, timer.owner_scope) {
            withdraw_everywhere(
                machine,
                ObjRef {
                    kind: ObjKind::Timer,
                    index: i as u16,
                    generation: timer.generation,
                },
            );
            machine.uncharge(timer.owner_scope, Resource::Metadata, 1);
            machine.set_timer(
                i,
                Timer { generation: timer.generation, ..Timer::empty() },
            );
            objects = objects.saturating_add(1);
        }
    }
    objects
}

/// Frees the objects a retired perimeter sponsored, and returns the pages and
/// the objects released.
///
/// A memory object that something still maps is not freed: handing out a frame
/// a live page table still points at would be dangerous reuse. It stays, and
/// the retained counters say so.
pub fn release_sponsored(machine: &mut Machine, root: u16) -> (freed: (u64, u64))
    requires
        old(machine).wf(),
        root < MAX_SCOPES,
    ensures
        final(machine).wf(),
        final(machine).same_tables(*old(machine)),
        (final(machine)@, freed.0, freed.1) == old(machine)@.sponsored_released(root as int),
{
    let (pages, memories): (u64, u64) = retire_memories(machine, root);
    let endpoints: u64 = retire_endpoints(machine, root);
    let signals: u64 = retire_signals(machine, root);
    let timers: u64 = retire_timers(machine, root);
    (pages, memories.saturating_add(endpoints).saturating_add(signals).saturating_add(timers))
}

/// Marks every scope in use within `root` as retired.
fn mark_retired(machine: &mut Machine, root: u16)
    requires
        old(machine).wf(),
        root < MAX_SCOPES,
    ensures
        final(machine).wf(),
        final(machine).same_tables(*old(machine)),
        final(machine)@ == old(machine)@.marked_retired(root as int),
{
    let ghost before = machine@;
    proof {
        machine.wf_scopes();
    }
    let mut marks: [bool; MAX_SCOPES] = [false; MAX_SCOPES];
    for i in 0..MAX_SCOPES
        invariant
            machine.wf(),
            machine.same_tables(*old(machine)),
            machine@ == before,
            root < MAX_SCOPES,
            forall|k: int|
                0 <= k < i ==> #[trigger] marks@[k] == (before.scopes[k].state != State::Empty
                    && within(before.scopes, root as int, k)),
    {
        marks[i] = machine.scope(i).state != State::Empty && machine.scope_within(root, i as u16);
    }
    for i in 0..MAX_SCOPES
        invariant
            machine.wf(),
            machine.same_tables(*old(machine)),
            before.scopes.len() == MAX_SCOPES,
            forall|k: int|
                0 <= k < MAX_SCOPES ==> #[trigger] marks@[k] == (before.scopes[k].state
                    != State::Empty && within(before.scopes, root as int, k)),
            machine@ == (MachineModel { scopes: machine@.scopes, ..before }),
            machine@.scopes.len() == before.scopes.len(),
            forall|k: int|
                0 <= k < MAX_SCOPES ==> #[trigger] machine@.scopes[k] == if k < i {
                    before.marked_retired(root as int).scopes[k]
                } else {
                    before.scopes[k]
                },
    {
        if marks[i] {
            let node = machine.scope(i);
            machine.set_scope(i, Scope { state: State::Retired, ..node });
        }
    }
    assert(machine@ =~= before.marked_retired(root as int));
}

/// Releases a quiescent scope, or reports why it is not one yet.
///
/// The report is read before anything is released; what the scope retains, the
/// result, is read after.
pub fn retire(machine: &mut Machine, ctx: &Ctx) -> (answer: (DrainReport, Result<u64, Status>))
    requires
        old(machine).wf(),
        ctx_ok(*ctx, ObjKind::Scope),
    ensures
        final(machine).wf(),
        final(machine).same_tables(*old(machine)),
        ({
            let root = ctx.cap.object.index as int;
            let m = old(machine)@.settled(ctx.now);
            let state = m.scopes[root].state;
            &&& answer.0 == m.scope_report(root)
            &&& if state == State::Open {
                answer.1 == Err::<u64, Status>(Status::StateConflict) && final(machine)@ == m
            } else if state == State::Fenced {
                answer.1 == Err::<u64, Status>(Status::DrainIncomplete) && final(machine)@ == m
            } else if state == State::Retired {
                answer.1 == Ok::<u64, Status>(0) && final(machine)@ == m
            } else {
                &&& answer.1 == Ok::<u64, Status>(
                    m.sponsored_released(root).0.scopes[root].memory_pages,
                )
                &&& final(machine)@ == m.scope_retired(*ctx)
            }
        }),
{
    let root: u16 = ctx.cap.object.index;
    let value = report(machine, root, ctx.now);
    let state = machine.scope(root as usize).state;
    if state == State::Open {
        return (value, Err(Status::StateConflict));
    }
    if state == State::Fenced {
        // Not a failure of the caller: an accurate report that the perimeter is
        // still holding something.
        return (value, Err(Status::DrainIncomplete));
    }
    if state == State::Retired {
        return (value, Ok(0));
    }
    release_sponsored(machine, root);
    let node = machine.scope(root as usize);
    mark_retired(machine, root);
    receipt(
        machine,
        Stated {
            kind: receipt_kind::RETIRE,
            domain: ctx.domain,
            scope: root,
            object: node.id,
            grant: 0,
            parent: 0,
            result: Status::Success,
            a: node.memory_pages,
            b: node.metadata,
        },
        ctx.now,
        false,
    );
    (value, Ok(node.memory_pages))
}

/// Number of invocations still charged to a scope subtree.
pub fn outstanding(machine: &Machine, root: u16) -> (count: u32)
    requires
        machine.wf(),
        root < MAX_SCOPES,
    ensures
        count == machine@.owed_within(root as int, MAX_INVOCATIONS as int),
{
    let mut count: u32 = 0;
    for i in 0..MAX_INVOCATIONS
        invariant
            machine.wf(),
            root < MAX_SCOPES,
            count <= i,
            count == machine@.owed_within(root as int, i as int),
    {
        let invocation = machine.invocation(i);
        if invocation.state != ipc::State::Empty && invocation.state != ipc::State::Resolved
            && machine.scope_within(root, invocation.origin_scope) {
            count += 1;
        }
    }
    count
}

/// The tables have their sizes, and live entries name objects that lie in
/// their tables.
pub open spec fn entries_ok(m: MachineModel) -> bool {
    &&& crate::obj::caps_wf(m.caps)
    &&& m.domains.len() == MAX_DOMAINS
    &&& forall|k: int|
        0 <= k < m.caps.len() && (#[trigger] m.caps[k]).live ==> crate::state::cap_ok(m.caps[k])
}

/// Releasing a slot empties it and leaves every other slot and the state of
/// every domain alone.
pub(crate) proof fn release_slot_touches_one(m: MachineModel, domain: int, slot: int)
    requires
        entries_ok(m),
        0 <= domain < MAX_DOMAINS,
        0 <= slot < MAX_CAPS,
    ensures
        ({
            let after = m.release_slot(domain, slot);
            &&& after.caps.len() == m.caps.len()
            &&& after.domains.len() == m.domains.len()
            &&& !after.caps[cap_at(domain, slot)].live
            &&& forall|k: int|
                0 <= k < m.caps.len() && k != cap_at(domain, slot) ==> #[trigger] after.caps[k]
                    == m.caps[k]
            &&& forall|d: int|
                0 <= d < MAX_DOMAINS ==> crate::state::ends_alike(
                    m.domains[d],
                    #[trigger] after.domains[d],
                )
            &&& after.maps == m.maps
        }),
{
    let entry = m.caps[cap_at(domain, slot)];
    if entry.live {
        let cut = MachineModel {
            caps: crate::obj::without_cap(m.caps, domain, slot),
            ..m
        };
        let unpaid = cut.uncharge(
            cut.domains[domain].owner_scope,
            Resource::Metadata,
            1,
        ).count_grant(entry.grant, false).count_ref(entry.object, false);
        let i = entry.object.index as int;
        let collected = match entry.object.kind {
            ObjKind::Invocation => unpaid.collect_invocation(i),
            ObjKind::Memory => if unpaid.memories[i].generation == entry.object.generation {
                unpaid.collect_memory(i, false)
            } else {
                unpaid
            },
            _ => unpaid,
        };
        collecting_grants_keeps_tables(
            collected,
            entry.grant,
            crate::limits::MAX_DERIVE_DEPTH as nat,
        );
        assert(collected.caps == cut.caps);
    }
}

pub(crate) proof fn collecting_grants_keeps_tables(m: MachineModel, g: u16, steps: nat)
    ensures
        m.collect_grant(g, steps).maps == m.maps,
        m.collect_grant(g, steps).caps == m.caps,
        m.collect_grant(g, steps).domains == m.domains,
    decreases steps,
{
    if steps > 0 && g != NO_GRANT && m.is_idle_grant(g as int) {
        collecting_grants_keeps_tables(
            m.free_grant(g as int),
            m.grants[g as int].parent,
            (steps - 1) as nat,
        );
    }
}

/// The tables of `after` are those of `before` with some entries emptied.
pub open spec fn only_emptied(before: MachineModel, after: MachineModel) -> bool {
    &&& after.caps.len() == before.caps.len()
    &&& after.domains.len() == before.domains.len()
    &&& forall|k: int|
        0 <= k < before.caps.len() ==> (#[trigger] after.caps[k]).live ==> after.caps[k]
            == before.caps[k]
    &&& forall|d: int|
        0 <= d < MAX_DOMAINS ==> (#[trigger] after.domains[d]).state == before.domains[d].state
}

proof fn slots_withdrawn(m: MachineModel, o: ObjRef, domain: int, n: nat)
    requires
        entries_ok(m),
        0 <= domain < MAX_DOMAINS,
        n <= MAX_CAPS,
    ensures
        only_emptied(m, m.withdrawn_slots(o, domain, n)),
        forall|s: int|
            0 <= s < n ==> !((#[trigger] m.withdrawn_slots(o, domain, n).caps[cap_at(
                domain,
                s,
            )]).live && m.withdrawn_slots(o, domain, n).caps[cap_at(domain, s)].object == o),
    decreases n,
{
    if n > 0 {
        slots_withdrawn(m, o, domain, (n - 1) as nat);
        let before = m.withdrawn_slots(o, domain, (n - 1) as nat);
        release_keeps(before, domain, n - 1);
        let after = m.withdrawn_slots(o, domain, n);
        assert forall|s: int| 0 <= s < n implies !((#[trigger] after.caps[cap_at(domain, s)]).live
            && after.caps[cap_at(domain, s)].object == o) by {
            if s < n - 1 {
                assert(cap_at(domain, s) != cap_at(domain, n - 1));
                assert(before.caps[cap_at(domain, s)] == before.caps[cap_at(domain, s)]);
            }
        }
    }
}

proof fn release_keeps(m: MachineModel, domain: int, slot: int)
    requires
        entries_ok(m),
        0 <= domain < MAX_DOMAINS,
        0 <= slot < MAX_CAPS,
    ensures
        only_emptied(m, m.release_slot(domain, slot)),
        !m.release_slot(domain, slot).caps[cap_at(domain, slot)].live,
        forall|k: int|
            0 <= k < m.caps.len() && k != cap_at(domain, slot) ==> #[trigger] m.release_slot(
                domain,
                slot,
            ).caps[k] == m.caps[k],
{
    release_slot_touches_one(m, domain, slot);
}

proof fn domains_withdrawn(m: MachineModel, o: ObjRef, n: nat)
    requires
        entries_ok(m),
        n <= MAX_DOMAINS,
    ensures
        only_emptied(m, m.withdrawn_everywhere(o, n)),
        forall|d: int, s: int|
            0 <= d < n && 0 <= s < MAX_CAPS && m.domains[d].state != DomainState::Empty ==> !((
            #[trigger] m.withdrawn_everywhere(o, n).caps[cap_at(d, s)]).live
                && m.withdrawn_everywhere(o, n).caps[cap_at(d, s)].object == o),
    decreases n,
{
    if n > 0 {
        domains_withdrawn(m, o, (n - 1) as nat);
        let before = m.withdrawn_everywhere(o, (n - 1) as nat);
        let after = m.withdrawn_everywhere(o, n);
        if before.domains[n - 1].state != DomainState::Empty {
            slots_withdrawn(before, o, n - 1, MAX_CAPS as nat);
        }
        assert forall|d: int, s: int|
            0 <= d < n && 0 <= s < MAX_CAPS && m.domains[d].state != DomainState::Empty implies !((
        #[trigger] after.caps[cap_at(d, s)]).live && after.caps[cap_at(d, s)].object == o) by {
            assert(0 <= cap_at(d, s) < m.caps.len());
            assert(m.domains[n - 1].state == before.domains[n - 1].state);
            if d < n - 1 && after.caps[cap_at(d, s)].live {
                assert(after.caps[cap_at(d, s)] == before.caps[cap_at(d, s)]);
            }
        }
    }
}

/// After an object has been withdrawn everywhere, no domain in use holds a
/// capability that names it.
pub proof fn withdrawal_is_complete(m: MachineModel, o: ObjRef, d: int, s: int)
    requires
        entries_ok(m),
        0 <= d < MAX_DOMAINS,
        0 <= s < MAX_CAPS,
        m.domains[d].state != DomainState::Empty,
    ensures
        ({
            let entry = m.withdrawn_everywhere(o, MAX_DOMAINS as nat).caps[cap_at(d, s)];
            !(entry.live && entry.object == o)
        }),
{
    domains_withdrawn(m, o, MAX_DOMAINS as nat);
}

} // verus!
