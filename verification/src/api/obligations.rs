//! What an admitted message obliges its receiver to: replying, beginning an
//! effect, resolving, and what happens when one side closes or dies.

use vstd::prelude::*;

use crate::abi::request::{
    EffectRequest, EndpointInfo, InvocationInfo, ReplyRequest, ResolveRequest,
};
use crate::abi::status::Status;
use crate::abi::{cap_op, object_type, outcome, receipt_kind, right};
use crate::api::ipcops::{are_sources, give_up, grant_id, place_all};
use crate::api::{
    collect_grant, collect_invocation, ctx_ok, hold_grant, lineage_status, receipt,
    reserve_receipt, resolve, Ctx, Stated,
};
use crate::bytes::{array_of, array_of_elements};
use crate::ctrl::{one_less, one_more};
use crate::ipc::{DeliveredCap, Effect, Invocation, State};
use crate::limits::{
    MAX_CAPS, MAX_DERIVE_DEPTH, MAX_DOMAINS, MAX_INLINE_PAYLOAD, MAX_INVOCATIONS,
    MAX_MESSAGE_CAPS, MAX_SCOPES, MAX_THREADS,
};
use crate::obj::{cap_lookup, count_free, CapEntry, ObjKind, NO_GRANT};
use crate::scope::{self, has_slot, minus, parallelised, Resource, Scope};
use crate::state::{cap_ok, is_calm, Machine, MachineModel, Thread, Wait, WakeHint};
use crate::thread::wake_if;

verus! {

impl MachineModel {
    /// The machine once the caller that waits for an invocation, if one still
    /// does, has been woken.
    pub open spec fn wake_waiter(self, i: int, code: Status, hint: WakeHint) -> MachineModel {
        match self.invocations[i].waiter {
            None => self,
            Some(t) => self.wake_waiting(
                t as int,
                Wait::Reply(i as u16, self.invocations[i].generation),
                code,
                hint,
            ),
        }
    }

    /// The machine once everything an invocation held has been given back.
    pub open spec fn release_invocation(self, i: int, now: u64) -> MachineModel {
        let held = self.invocations[i];
        let origin = held.origin_scope as int;
        let begun = held.effect == Effect::Admitted;
        if held.state == State::Empty {
            self
        } else {
            let unpaid = if held.charged_bytes != 0 {
                self.uncharge(held.origin_scope, Resource::QueueBytes, held.charged_bytes)
            } else {
                self
            };
            let counted = unpaid.with_scope(
                origin,
                Scope {
                    invocations_pending: one_less(unpaid.scopes[origin].invocations_pending),
                    effects_pending: if begun {
                        one_less(unpaid.scopes[origin].effects_pending)
                    } else {
                        unpaid.scopes[origin].effects_pending
                    },
                    last_progress_ns: now,
                    ..unpaid.scopes[origin]
                },
            );
            // The closing time this effect was holding goes back to the service
            // that reserved it.
            let service = held.closure_service as int;
            let freed = if begun {
                counted.with_scope(
                    service,
                    Scope {
                        closure_reserved_ns: minus(
                            counted.scopes[service].closure_reserved_ns,
                            held.closure_reserved_ns,
                        ),
                        ..counted.scopes[service]
                    },
                )
            } else {
                counted
            };
            let unheld = if held.grant == NO_GRANT {
                freed
            } else {
                freed.count_grant(held.grant, false).collect_grant(
                    held.grant,
                    MAX_DERIVE_DEPTH as nat,
                )
            };
            unheld.with_invocation(
                i,
                Invocation {
                    state: State::Resolved,
                    charged_bytes: 0,
                    grant: NO_GRANT,
                    effect: if begun {
                        Effect::Resolved
                    } else {
                        held.effect
                    },
                    closure_reserved_ns: if begun {
                        0
                    } else {
                        held.closure_reserved_ns
                    },
                    ..held
                },
            ).collect_invocation(i)
        }
    }

    /// The first fault among the capabilities of a reply, from the one in place
    /// `i` on: each is copied or moved, has not been moved before, resolves
    /// with the right to be transferred, and fits into the caller's table.
    pub open spec fn reply_batch_fault(
        self,
        giver: int,
        caller: int,
        request: ReplyRequest,
        now: u64,
        i: int,
    ) -> Option<Status>
        decreases request.cap_count - i,
    {
        if i >= request.cap_count {
            None
        } else if request.cap_ops@[i] != cap_op::COPY && request.cap_ops@[i] != cap_op::MOVE {
            Some(Status::InvalidArgument)
        } else if exists|j: int|
            0 <= j < i && request.cap_ops@[j] == cap_op::MOVE && crate::abi::slot_of(
                #[trigger] request.caps@[j],
            ) == crate::abi::slot_of(request.caps@[i]) {
            Some(Status::InvalidHandle)
        } else {
            match self.resolved(giver, request.caps@[i], object_type::NONE, right::TRANSFER, now) {
                Err(code) => Some(code),
                Ok(cap) => if count_free(self.caps, caller, 0) < i + 1 || !self.affords(
                    self.domains[caller].owner_scope,
                    Resource::Metadata,
                    i + 1,
                ) {
                    Some(Status::LimitExhausted)
                } else {
                    self.reply_batch_fault(giver, caller, request, now, i + 1)
                },
            }
        }
    }

    /// Why a reply is refused, or nothing when it is accepted.
    pub open spec fn reply_fault(self, ctx: Ctx, request: ReplyRequest) -> Option<Status> {
        let invocation = self.invocations[ctx.cap.object.index as int];
        let caller = invocation.origin_domain as int;
        if invocation.state == State::Resolved || invocation.replied {
            Some(Status::AlreadyResolved)
        } else if invocation.waiter is None {
            Some(Status::StateConflict)
        } else if request.payload_len > MAX_INLINE_PAYLOAD || request.cap_count
            > MAX_MESSAGE_CAPS {
            Some(Status::InvalidArgument)
        } else if self.domains[caller].generation != invocation.origin_domain_generation {
            Some(Status::PeerDead)
        } else {
            self.reply_batch_fault(ctx.domain as int, caller, request, ctx.now, 0)
        }
    }

    /// The machine once a reply has been recorded and its caller woken.
    pub open spec fn replied(self, ctx: Ctx, request: ReplyRequest) -> MachineModel {
        let i = ctx.cap.object.index as int;
        let caller = self.invocations[i].origin_domain as int;
        let count = request.cap_count as nat;
        let giver = ctx.domain as int;
        let given = self.placed(self.caps, giver, request.caps@, caller, count).given_up(
            giver,
            request.caps@,
            request.cap_ops@,
            count,
        );
        given.with_invocation(
            i,
            Invocation {
                reply_payload: request.payload,
                reply_len: request.payload_len,
                reply_caps: array_of(
                    handles_of(
                        self.placements(self.caps, giver, request.caps@, caller, count as int),
                        count as int,
                    ),
                ),
                reply_cap_count: request.cap_count,
                reply_result: request.result,
                replied: true,
                outcome: outcome::COMMITTED,
                ..given.invocations[i]
            },
        ).wake_waiter(i, Status::Success, WakeHint::Sync)
    }

    /// What stands against an effect of an invocation: its lineage, or the
    /// scope it was sent for.
    pub open spec fn effect_barrier(self, i: int, now: u64) -> Status {
        let invocation = self.invocations[i];
        let lineage = self.lineage_of(invocation.grant, now);
        if lineage != Status::Success {
            lineage
        } else if !self.is_open(invocation.origin_scope) {
            Status::ScopeClosed
        } else {
            Status::Success
        }
    }

    /// The receipt of an effect.
    pub open spec fn effect_stated(self, ctx: Ctx, result: Status, a: u64, b: u64) -> Stated {
        let invocation = self.invocations[ctx.cap.object.index as int];
        Stated {
            kind: receipt_kind::EFFECT,
            domain: ctx.domain,
            scope: invocation.origin_scope,
            object: invocation.id,
            grant: self.grant_id(invocation.grant),
            parent: invocation.parent_id,
            result,
            a,
            b,
        }
    }

    /// Why an effect cannot even be considered, or nothing when it can.
    pub open spec fn effect_fault(self, ctx: Ctx, request: EffectRequest) -> Option<Status> {
        let invocation = self.invocations[ctx.cap.object.index as int];
        if request.reserved0 != 0 {
            Some(Status::InvalidArgument)
        } else if invocation.state == State::Resolved || invocation.effect != Effect::Unasked {
            Some(Status::AlreadyResolved)
        } else {
            None
        }
    }

    /// Closing time and a receipt cell are there for an effect: what is spent,
    /// what other effects hold and what this one asks for fit the reserve.
    pub open spec fn can_begin(self, ctx: Ctx, request: EffectRequest) -> bool {
        let service = self.scopes[self.domains[ctx.domain as int].owner_scope as int];
        &&& service.closure_used_ns + service.closure_reserved_ns + request.closure_reserve_ns
            <= service.limits.closure_reserve_ns
        &&& self.can_record()
    }

    /// The machine once an effect has been refused for good.
    pub open spec fn effect_refused(self, ctx: Ctx, code: Status) -> MachineModel {
        let i = ctx.cap.object.index as int;
        self.with_invocation(
            i,
            Invocation { effect: Effect::Refused, ..self.invocations[i] },
        ).receipted(self.effect_stated(ctx, code, 0, 0), ctx.now, false)
    }

    /// The machine once an effect has been admitted.
    pub open spec fn effect_begun(self, ctx: Ctx, request: EffectRequest) -> MachineModel {
        let i = ctx.cap.object.index as int;
        let service = self.domains[ctx.domain as int].owner_scope;
        let origin = self.invocations[i].origin_scope as int;
        let reserved = self.cell_reserved().with_scope(
            service as int,
            Scope {
                closure_reserved_ns: (self.scopes[service as int].closure_reserved_ns
                    + request.closure_reserve_ns) as u64,
                ..self.scopes[service as int]
            },
        ).with_invocation(
            i,
            Invocation {
                effect: Effect::Admitted,
                closure_service: service,
                closure_reserved_ns: request.closure_reserve_ns,
                ..self.invocations[i]
            },
        );
        reserved.with_scope(
            origin,
            Scope {
                effects_pending: one_more(reserved.scopes[origin].effects_pending),
                ..reserved.scopes[origin]
            },
        ).receipted(
            self.effect_stated(
                ctx,
                Status::Success,
                request.effect_kind as u64,
                request.closure_reserve_ns,
            ),
            ctx.now,
            true,
        )
    }

    /// Why an obligation is not discharged, or nothing when it is.
    pub open spec fn resolve_fault(self, ctx: Ctx, request: ResolveRequest) -> Option<Status> {
        if request.reserved0 != 0 || !(request.outcome == outcome::COMMITTED || request.outcome
            == outcome::ABORTED || request.outcome == outcome::UNKNOWN) {
            Some(Status::InvalidArgument)
        } else if self.invocations[ctx.cap.object.index as int].state == State::Resolved {
            Some(Status::AlreadyResolved)
        } else {
            None
        }
    }

    /// The machine once an obligation has been discharged.
    pub open spec fn invocation_resolved(self, ctx: Ctx, request: ResolveRequest) -> MachineModel {
        let i = ctx.cap.object.index as int;
        self.with_invocation(
            i,
            Invocation { outcome: request.outcome, ..self.invocations[i] },
        ).wake_waiter(i, outcome_status(request.outcome), WakeHint::Sync).release_invocation(
            i,
            ctx.now,
        )
    }

    /// The scope that pays for a worker of an invocation: the one it was sent
    /// for, or the service's own where that one is closed.
    pub open spec fn worker_scope(self, ctx: Ctx) -> u16 {
        let origin = self.invocations[ctx.cap.object.index as int].origin_scope;
        if self.is_open(origin) {
            origin
        } else {
            self.domains[ctx.domain as int].owner_scope
        }
    }

    /// Why a worker is not bound, or nothing when it is.
    pub open spec fn bind_fault(self, ctx: Ctx) -> Option<Status> {
        let invocation = self.invocations[ctx.cap.object.index as int];
        if invocation.state == State::Resolved {
            Some(Status::AlreadyResolved)
        } else if self.threads[ctx.thread as int].bound is Some {
            Some(Status::StateConflict)
        } else if self.is_open(invocation.origin_scope) && !has_slot(
            self.scopes,
            invocation.origin_scope as int,
        ) {
            Some(Status::LimitExhausted)
        } else {
            None
        }
    }

    /// The machine once a running thread counts in `to` instead of where it
    /// counted before.
    pub open spec fn moved_slot(self, t: int, to: u16) -> MachineModel {
        let left = match self.threads[t].parallelism_scope {
            Some(s) => MachineModel {
                scopes: parallelised(self.scopes, s as int, false),
                ..self
            },
            None => self,
        };
        MachineModel { scopes: parallelised(left.scopes, to as int, true), ..left }
    }

    /// The machine once a worker is bound to an invocation.
    pub open spec fn worker_bound(self, ctx: Ctx) -> MachineModel {
        let i = ctx.cap.object.index as int;
        let t = ctx.thread as int;
        let payer = self.worker_scope(ctx);
        let moved = self.moved_slot(t, payer);
        moved.with_thread(
            t,
            Thread {
                effective_scope: payer,
                recovery: !self.is_open(self.invocations[i].origin_scope),
                bound: Some((i as u16, self.invocations[i].generation)),
                parallelism_scope: Some(payer),
                ..self.threads[t]
            },
        ).with_invocation(
            i,
            Invocation { refs: one_more(self.invocations[i].refs), ..self.invocations[i] },
        )
    }

    /// The machine once a worker is back in the scope that owns its domain.
    pub open spec fn worker_unbound(self, t: int, i: int, generation: u32) -> MachineModel {
        let owner = self.threads[t].owner_scope;
        let moved = self.moved_slot(t, owner).with_thread(
            t,
            Thread {
                effective_scope: owner,
                recovery: false,
                bound: None,
                parallelism_scope: Some(owner),
                ..self.threads[t]
            },
        );
        if self.invocations[i].generation == generation {
            moved.with_invocation(
                i,
                Invocation { refs: one_less(self.invocations[i].refs), ..self.invocations[i] },
            )
        } else {
            moved
        }
    }
}

/// The handles of the first `n` placed capabilities; zero behind.
pub open spec fn handles_of(placed: Seq<DeliveredCap>, n: int) -> Seq<u64> {
    Seq::new(
        MAX_MESSAGE_CAPS as nat,
        |i: int|
            if i < n {
                placed[i].handle
            } else {
                0
            },
    )
}

/// What a caller is told of an outcome.
pub open spec fn outcome_status(o: u32) -> Status {
    if o == outcome::COMMITTED {
        Status::Success
    } else if o == outcome::UNKNOWN {
        Status::Pending
    } else {
        Status::Cancelled
    }
}

/// What a caller is told of an outcome.
pub fn status_of(o: u32) -> (code: Status)
    ensures
        code == outcome_status(o),
{
    if o == outcome::COMMITTED {
        Status::Success
    } else if o == outcome::UNKNOWN {
        Status::Pending
    } else {
        Status::Cancelled
    }
}

/// Wakes the caller that waits for an invocation.
pub fn wake_waiter(machine: &mut Machine, i: usize, code: Status, hint: WakeHint)
    requires
        old(machine).wf(),
        i < MAX_INVOCATIONS,
    ensures
        final(machine).wf(),
        final(machine).same_tables(*old(machine)),
        final(machine)@ == old(machine)@.wake_waiter(i as int, code, hint),
{
    let invocation = machine.invocation(i);
    match invocation.waiter {
        None => {},
        Some(t) => {
            wake_if(
                machine,
                t as usize,
                Wait::Reply(i as u16, invocation.generation),
                code,
                hint,
            );
        },
    }
}

/// Releases everything an invocation held once it is discharged.
pub fn release_invocation(machine: &mut Machine, i: usize, now: u64)
    requires
        old(machine).wf(),
        i < MAX_INVOCATIONS,
    ensures
        final(machine).wf(),
        final(machine).same_tables(*old(machine)),
        final(machine)@ == old(machine)@.release_invocation(i as int, now),
        is_calm(old(machine)@, final(machine)@),
{
    proof {
        reveal(is_calm);
    }
    let held = machine.invocation(i);
    if held.state == State::Empty {
        return;
    }
    let begun = held.effect == Effect::Admitted;
    let origin: usize = held.origin_scope as usize;
    if held.charged_bytes != 0 {
        machine.uncharge(held.origin_scope, Resource::QueueBytes, held.charged_bytes);
    }
    let scope = machine.scope(origin);
    machine.set_scope(
        origin,
        Scope {
            invocations_pending: scope.invocations_pending.saturating_sub(1),
            effects_pending: if begun {
                scope.effects_pending.saturating_sub(1)
            } else {
                scope.effects_pending
            },
            last_progress_ns: now,
            ..scope
        },
    );
    if begun {
        let service = machine.scope(held.closure_service as usize);
        machine.set_scope(
            held.closure_service as usize,
            Scope {
                closure_reserved_ns: service.closure_reserved_ns.saturating_sub(
                    held.closure_reserved_ns,
                ),
                ..service
            },
        );
    }
    if held.grant != NO_GRANT {
        hold_grant(machine, held.grant, false);
        proof {
            crate::api::scopeops::collecting_grants_keeps_tables(
                machine@,
                held.grant,
                crate::limits::MAX_DERIVE_DEPTH as nat,
            );
        }
        collect_grant(machine, held.grant);
    }
    machine.set_invocation(
        i,
        Invocation {
            state: State::Resolved,
            charged_bytes: 0,
            grant: NO_GRANT,
            effect: if begun {
                Effect::Resolved
            } else {
                held.effect
            },
            closure_reserved_ns: if begun {
                0
            } else {
                held.closure_reserved_ns
            },
            ..held
        },
    );
    collect_invocation(machine, i);
}

/// Whether an earlier capability of the reply moved the same slot.
fn moved_before(request: &ReplyRequest, i: usize) -> (yes: bool)
    requires
        i < MAX_MESSAGE_CAPS,
    ensures
        yes == exists|j: int|
            0 <= j < i && request.cap_ops@[j] == cap_op::MOVE && crate::abi::slot_of(
                #[trigger] request.caps@[j],
            ) == crate::abi::slot_of(request.caps@[i as int]),
{
    for j in 0..i
        invariant
            i < MAX_MESSAGE_CAPS,
            forall|k: int|
                0 <= k < j ==> !(request.cap_ops@[k] == cap_op::MOVE && crate::abi::slot_of(
                    #[trigger] request.caps@[k],
                ) == crate::abi::slot_of(request.caps@[i as int])),
    {
        if request.cap_ops[j] == cap_op::MOVE && crate::abi::handle_slot(request.caps[j])
            == crate::abi::handle_slot(request.caps[i]) {
            assert(crate::abi::slot_of(request.caps@[j as int]) == crate::abi::slot_of(
                request.caps@[i as int],
            ));
            return true;
        }
    }
    false
}

/// Resolves every capability of a reply before anything moves.
fn check_reply_batch(
    machine: &Machine,
    giver: usize,
    caller: usize,
    request: &ReplyRequest,
    now: u64,
) -> (result: Result<[CapEntry; MAX_MESSAGE_CAPS], Status>)
    requires
        machine.wf(),
        giver < MAX_DOMAINS,
        caller < MAX_DOMAINS,
        request.cap_count <= MAX_MESSAGE_CAPS,
    ensures
        match result {
            Ok(sources) => {
                &&& machine@.reply_batch_fault(
                    giver as int,
                    caller as int,
                    *request,
                    now,
                    0,
                ) is None
                &&& are_sources(
                    machine@.caps,
                    giver as int,
                    request.caps@,
                    sources@,
                    request.cap_count as int,
                )
                &&& request.cap_count == 0 || {
                    &&& count_free(machine@.caps, caller as int, 0) >= request.cap_count
                    &&& machine@.affords(
                        machine@.domains[caller as int].owner_scope,
                        Resource::Metadata,
                        request.cap_count as int,
                    )
                }
            },
            Err(code) => machine@.reply_batch_fault(
                giver as int,
                caller as int,
                *request,
                now,
                0,
            ) == Some(code),
        },
{
    let mut sources: [CapEntry; MAX_MESSAGE_CAPS] = [CapEntry::empty(); MAX_MESSAGE_CAPS];
    let count: usize = request.cap_count as usize;
    let free: usize = machine.free_caps(caller);
    let owner: u16 = machine.domain(caller).owner_scope;
    for i in 0..count
        invariant
            machine.wf(),
            giver < MAX_DOMAINS,
            caller < MAX_DOMAINS,
            count == request.cap_count,
            count <= MAX_MESSAGE_CAPS,
            free == count_free(machine@.caps, caller as int, 0),
            owner == machine@.domains[caller as int].owner_scope,
            owner < MAX_SCOPES,
            machine@.reply_batch_fault(giver as int, caller as int, *request, now, 0)
                == machine@.reply_batch_fault(
                giver as int,
                caller as int,
                *request,
                now,
                i as int,
            ),
            are_sources(machine@.caps, giver as int, request.caps@, sources@, i as int),
            i == 0 || free >= i && machine@.affords(owner, Resource::Metadata, i as int),
    {
        let operation: u32 = request.cap_ops[i];
        if operation != cap_op::COPY && operation != cap_op::MOVE {
            return Err(Status::InvalidArgument);
        }
        if moved_before(request, i) {
            return Err(Status::InvalidHandle);
        }
        let handle: u64 = request.caps[i];
        match resolve(machine, giver, handle, object_type::NONE, right::TRANSFER, now) {
            Err(code) => {
                return Err(code);
            },
            Ok(_) => {},
        }
        if free < i + 1 || !machine.affords(owner, Resource::Metadata, i as u64 + 1) {
            return Err(Status::LimitExhausted);
        }
        assert(cap_lookup(machine@.caps, giver as int, handle) is Some);
        match machine.cap_named(giver, handle) {
            Some(entry) => {
                let ghost before = sources@;
                sources[i] = entry;
                assert forall|k: int| 0 <= k < i + 1 implies {
                    &&& cap_lookup(machine@.caps, giver as int, request.caps@[k]) == Some(
                        #[trigger] sources@[k],
                    )
                    &&& cap_ok(sources@[k])
                    &&& crate::abi::slot_of(request.caps@[k]) < MAX_CAPS
                } by {
                    if k < i {
                        assert(sources@[k] == before[k]);
                    }
                }
            },
            None => {},
        }
    }
    Ok(sources)
}

/// Consumes the one-shot reply of an invocation.
///
/// The caller's table and scope have to hold all the capabilities of the reply
/// before one that is moved leaves its giver, so that a refusal leaves nothing
/// partial behind.
pub fn reply(machine: &mut Machine, ctx: &Ctx, request: &ReplyRequest) -> (result: Result<
    u64,
    Status,
>)
    requires
        old(machine).wf(),
        ctx_ok(*ctx, ObjKind::Invocation),
    ensures
        final(machine).wf(),
        final(machine).same_tables(*old(machine)),
        match old(machine)@.reply_fault(*ctx, *request) {
            Some(code) => {
                &&& result == Err::<u64, Status>(code)
                &&& final(machine)@ == old(machine)@
            },
            None => {
                let answer = final(machine)@.reply_of(ctx.cap.object.index as int);
                &&& final(machine)@ == old(machine)@.replied(*ctx, *request)
                &&& answer.payload == request.payload
                &&& answer.payload_len == request.payload_len
                &&& answer.result == request.result
                &&& answer.cap_count == request.cap_count
                &&& result == Ok::<u64, Status>(
                    old(machine)@.invocations[ctx.cap.object.index as int].id,
                )
            },
        },
{
    let i: usize = ctx.cap.object.index as usize;
    let invocation = machine.invocation(i);
    if invocation.state == State::Resolved || invocation.replied {
        return Err(Status::AlreadyResolved);
    }
    if invocation.waiter.is_none() {
        return Err(Status::StateConflict);
    }
    if request.payload_len as usize > MAX_INLINE_PAYLOAD || request.cap_count as usize
        > MAX_MESSAGE_CAPS {
        return Err(Status::InvalidArgument);
    }
    let caller: usize = invocation.origin_domain as usize;
    if machine.domain(caller).generation != invocation.origin_domain_generation {
        return Err(Status::PeerDead);
    }
    let sources = match check_reply_batch(machine, ctx.domain, caller, request, ctx.now) {
        Err(code) => {
            return Err(code);
        },
        Ok(sources) => sources,
    };
    let count: usize = request.cap_count as usize;
    let ghost before = machine@;
    let installed = place_all(
        machine,
        Ghost(before.caps),
        Ghost(ctx.domain as int),
        Ghost(request.caps@),
        &sources,
        caller,
        count,
    );
    assert forall|i: int| 0 <= i < count implies crate::abi::slot_of(#[trigger] request.caps@[i])
        < MAX_CAPS by {
        assert(cap_ok(sources@[i]));
    }
    give_up(machine, ctx.domain, &request.caps, &request.cap_ops, count);
    let reply_caps = handles(&installed, count);
    proof {
        array_of_elements(reply_caps);
    }
    proof {
        machine.wf_sized();
    }
    let record = machine.invocation(i);
    machine.set_invocation(
        i,
        Invocation {
            reply_payload: request.payload,
            reply_len: request.payload_len,
            reply_caps,
            reply_cap_count: request.cap_count,
            reply_result: request.result,
            replied: true,
            outcome: outcome::COMMITTED,
            ..record
        },
    );
    wake_waiter(machine, i, Status::Success, WakeHint::Sync);
    Ok(invocation.id)
}

/// The handles of the first `count` placed capabilities; zero behind.
fn handles(placed: &[DeliveredCap; MAX_MESSAGE_CAPS], count: usize) -> (out: [u64;
    MAX_MESSAGE_CAPS])
    requires
        count <= MAX_MESSAGE_CAPS,
    ensures
        out@ == handles_of(placed@, count as int),
{
    let mut out: [u64; MAX_MESSAGE_CAPS] = [0; MAX_MESSAGE_CAPS];
    for i in 0..count
        invariant
            count <= MAX_MESSAGE_CAPS,
            forall|j: int|
                0 <= j < MAX_MESSAGE_CAPS ==> #[trigger] out@[j] == if j < i {
                    placed@[j].handle
                } else {
                    0
                },
    {
        out[i] = placed[i].handle;
    }
    assert(out@ =~= handles_of(placed@, count as int));
    out
}

/// What stands against an effect of an invocation.
fn effect_barrier(machine: &Machine, i: usize, now: u64) -> (code: Status)
    requires
        machine.wf(),
        i < MAX_INVOCATIONS,
    ensures
        code == machine@.effect_barrier(i as int, now),
{
    let invocation = machine.invocation(i);
    let lineage = lineage_status(machine, invocation.grant, now);
    if lineage != Status::Success {
        return lineage;
    }
    if machine.scope(invocation.origin_scope as usize).state != scope::State::Open {
        return Status::ScopeClosed;
    }
    Status::Success
}

/// Admits one effect against the lineage that admitted the request.
///
/// Having been admitted is not permission to act: the same grant, the same
/// scopes and the same clock are checked again, and the mark is consumed once.
/// Presenting an equivalent capability afterwards cannot revive a request whose
/// authority was closed.
pub fn begin_effect(machine: &mut Machine, ctx: &Ctx, request: &EffectRequest) -> (result: Result<
    u64,
    Status,
>)
    requires
        old(machine).wf(),
        ctx_ok(*ctx, ObjKind::Invocation),
    ensures
        final(machine).wf(),
        final(machine).same_tables(*old(machine)),
        ({
            let m = old(machine)@;
            let i = ctx.cap.object.index as int;
            let barrier = m.effect_barrier(i, ctx.now);
            match m.effect_fault(*ctx, *request) {
                Some(code) => {
                    &&& result == Err::<u64, Status>(code)
                    &&& final(machine)@ == m
                },
                None => if barrier != Status::Success {
                    &&& result == Err::<u64, Status>(barrier)
                    &&& final(machine)@ == m.effect_refused(*ctx, barrier)
                } else if !m.can_begin(*ctx, *request) {
                    &&& result == Err::<u64, Status>(Status::LimitExhausted)
                    &&& final(machine)@ == m
                } else {
                    &&& result == Ok::<u64, Status>(m.invocations[i].id)
                    &&& final(machine)@ == m.effect_begun(*ctx, *request)
                },
            }
        }),
{
    if request.reserved0 != 0 {
        return Err(Status::InvalidArgument);
    }
    let i: usize = ctx.cap.object.index as usize;
    let invocation = machine.invocation(i);
    if invocation.state == State::Resolved || invocation.effect != Effect::Unasked {
        return Err(Status::AlreadyResolved);
    }
    let grant: u64 = grant_id(machine, invocation.grant);
    let barrier = effect_barrier(machine, i, ctx.now);
    if barrier != Status::Success {
        machine.set_invocation(i, Invocation { effect: Effect::Refused, ..invocation });
        receipt(
            machine,
            Stated {
                kind: receipt_kind::EFFECT,
                domain: ctx.domain,
                scope: invocation.origin_scope,
                object: invocation.id,
                grant,
                parent: invocation.parent_id,
                result: barrier,
                a: 0,
                b: 0,
            },
            ctx.now,
            false,
        );
        return Err(barrier);
    }
    // Closing time is reserved before the effect is permitted, in the server's
    // own scope: finishing an obligation must not depend on the budget of the
    // client that is being closed.
    let service: u16 = machine.domain(ctx.domain).owner_scope;
    let node = machine.scope(service as usize);
    let limit: u64 = node.limits.closure_reserve_ns;
    if node.closure_used_ns > limit || node.closure_reserved_ns > limit - node.closure_used_ns
        || request.closure_reserve_ns > limit - node.closure_used_ns - node.closure_reserved_ns {
        return Err(Status::LimitExhausted);
    }
    // A receipt exists for every admitted effect only if its cell is bought
    // before the effect is permitted.
    if !reserve_receipt(machine) {
        return Err(Status::LimitExhausted);
    }
    machine.set_scope(
        service as usize,
        Scope {
            closure_reserved_ns: node.closure_reserved_ns + request.closure_reserve_ns,
            ..node
        },
    );
    machine.set_invocation(
        i,
        Invocation {
            effect: Effect::Admitted,
            closure_service: service,
            closure_reserved_ns: request.closure_reserve_ns,
            ..invocation
        },
    );
    let origin = machine.scope(invocation.origin_scope as usize);
    machine.set_scope(
        invocation.origin_scope as usize,
        Scope { effects_pending: origin.effects_pending.saturating_add(1), ..origin },
    );
    receipt(
        machine,
        Stated {
            kind: receipt_kind::EFFECT,
            domain: ctx.domain,
            scope: invocation.origin_scope,
            object: invocation.id,
            grant,
            parent: invocation.parent_id,
            result: Status::Success,
            a: request.effect_kind as u64,
            b: request.closure_reserve_ns,
        },
        ctx.now,
        true,
    );
    Ok(invocation.id)
}

/// Discharges a retained obligation with an explicit outcome.
pub fn resolve_invocation(machine: &mut Machine, ctx: &Ctx, request: &ResolveRequest) -> (result:
    Result<u64, Status>)
    requires
        old(machine).wf(),
        ctx_ok(*ctx, ObjKind::Invocation),
    ensures
        final(machine).wf(),
        final(machine).same_tables(*old(machine)),
        match old(machine)@.resolve_fault(*ctx, *request) {
            Some(code) => {
                &&& result == Err::<u64, Status>(code)
                &&& final(machine)@ == old(machine)@
            },
            None => {
                &&& final(machine)@ == old(machine)@.invocation_resolved(*ctx, *request)
                &&& result == Ok::<u64, Status>(
                    old(machine)@.invocations[ctx.cap.object.index as int].id,
                )
            },
        },
{
    if request.reserved0 != 0 || !(request.outcome == outcome::COMMITTED || request.outcome
        == outcome::ABORTED || request.outcome == outcome::UNKNOWN) {
        return Err(Status::InvalidArgument);
    }
    let i: usize = ctx.cap.object.index as usize;
    let invocation = machine.invocation(i);
    if invocation.state == State::Resolved {
        return Err(Status::AlreadyResolved);
    }
    machine.set_invocation(i, Invocation { outcome: request.outcome, ..invocation });
    wake_waiter(machine, i, status_of(request.outcome), WakeHint::Sync);
    release_invocation(machine, i, ctx.now);
    Ok(invocation.id)
}

/// Reports origin, cancellation and effect state.
pub fn query_invocation(machine: &Machine, ctx: &Ctx) -> (info: InvocationInfo)
    requires
        machine.wf(),
        ctx_ok(*ctx, ObjKind::Invocation),
    ensures
        ({
            let invocation = machine@.invocations[ctx.cap.object.index as int];
            info == InvocationInfo {
                state: invocation.state.abi_spec(),
                cancel_state: invocation.cancel.abi_spec(),
                effect_state: invocation.effect.abi_spec(),
                invocation_id: invocation.id,
                origin_domain_id: invocation.origin_domain_id,
                origin_scope_id: invocation.origin_scope_id,
                facet: invocation.facet,
                grant_id: machine@.grant_id(invocation.grant),
                admitted_ns: invocation.admitted_ns,
            }
        }),
{
    let invocation = machine.invocation(ctx.cap.object.index as usize);
    InvocationInfo {
        state: invocation.state.abi(),
        cancel_state: invocation.cancel.abi(),
        effect_state: invocation.effect.abi(),
        invocation_id: invocation.id,
        origin_domain_id: invocation.origin_domain_id,
        origin_scope_id: invocation.origin_scope_id,
        facet: invocation.facet,
        grant_id: grant_id(machine, invocation.grant),
        admitted_ns: invocation.admitted_ns,
    }
}

/// Reports queue occupancy and epoch.
pub fn query_endpoint(machine: &Machine, ctx: &Ctx) -> (info: EndpointInfo)
    requires
        machine.wf(),
        ctx_ok(*ctx, ObjKind::Endpoint),
    ensures
        ({
            let endpoint = machine@.endpoints[ctx.cap.object.index as int];
            info == EndpointInfo {
                queue_capacity: endpoint.capacity,
                queued: endpoint.queued,
                reserved_cells: endpoint.reserved_cells,
                facets: endpoint.facets,
                epoch: endpoint.epoch,
                object_id: endpoint.id,
                admitted: endpoint.admitted,
                delivered: endpoint.delivered,
            }
        }),
{
    let endpoint = machine.endpoint(ctx.cap.object.index as usize);
    EndpointInfo {
        queue_capacity: endpoint.capacity,
        queued: endpoint.queued,
        reserved_cells: endpoint.reserved_cells,
        facets: endpoint.facets,
        epoch: endpoint.epoch,
        object_id: endpoint.id,
        admitted: endpoint.admitted,
        delivered: endpoint.delivered,
    }
}

/// Counts a running thread in another scope than before.
fn move_slot(machine: &mut Machine, t: usize, to: u16)
    requires
        old(machine).wf(),
        t < MAX_THREADS,
        to < MAX_SCOPES,
    ensures
        final(machine).wf(),
        final(machine).same_tables(*old(machine)),
        final(machine)@ == old(machine)@.moved_slot(t as int, to),
{
    match machine.thread(t).parallelism_scope {
        Some(s) => {
            machine.count_parallelism(s, false);
        },
        None => {},
    }
    machine.count_parallelism(to, true);
}

/// Charges this worker's execution to the invocation's originating scope.
///
/// The client does not choose who pays: the scope comes from the invocation the
/// kernel stamped. When that scope is already closed the binding is still
/// allowed, because the obligation still has to be finished, but the time is
/// charged to the service's closing reserve and counts as recovery.
pub fn bind_worker(machine: &mut Machine, ctx: &Ctx) -> (result: Result<u64, Status>)
    requires
        old(machine).wf(),
        ctx_ok(*ctx, ObjKind::Invocation),
    ensures
        final(machine).wf(),
        final(machine).same_tables(*old(machine)),
        match old(machine)@.bind_fault(*ctx) {
            Some(code) => {
                &&& result == Err::<u64, Status>(code)
                &&& final(machine)@ == old(machine)@
            },
            None => {
                &&& final(machine)@ == old(machine)@.worker_bound(*ctx)
                &&& result == Ok::<u64, Status>(
                    old(machine)@.invocations[ctx.cap.object.index as int].id,
                )
            },
        },
{
    let i: usize = ctx.cap.object.index as usize;
    let invocation = machine.invocation(i);
    if invocation.state == State::Resolved {
        return Err(Status::AlreadyResolved);
    }
    let thread = machine.thread(ctx.thread);
    if thread.bound.is_some() {
        return Err(Status::StateConflict);
    }
    let recovery = machine.scope(invocation.origin_scope as usize).state != scope::State::Open;
    if !recovery && !machine.has_parallelism(invocation.origin_scope) {
        return Err(Status::LimitExhausted);
    }
    let payer: u16 = if recovery {
        machine.domain(ctx.domain).owner_scope
    } else {
        invocation.origin_scope
    };
    move_slot(machine, ctx.thread, payer);
    machine.set_thread(
        ctx.thread,
        Thread {
            effective_scope: payer,
            recovery,
            bound: Some((i as u16, invocation.generation)),
            parallelism_scope: Some(payer),
            ..thread
        },
    );
    machine.set_invocation(
        i,
        Invocation { refs: invocation.refs.saturating_add(1), ..invocation },
    );
    Ok(invocation.id)
}

/// Returns the worker to the scope that owns its domain.
pub fn unbind_worker(machine: &mut Machine, t: usize) -> (result: Result<u64, Status>)
    requires
        old(machine).wf(),
        t < MAX_THREADS,
    ensures
        final(machine).wf(),
        final(machine).same_tables(*old(machine)),
        match old(machine)@.threads[t as int].bound {
            None => {
                &&& result == Err::<u64, Status>(Status::StateConflict)
                &&& final(machine)@ == old(machine)@
            },
            Some((i, generation)) => {
                &&& result == Ok::<u64, Status>(0)
                &&& final(machine)@ == old(machine)@.worker_unbound(
                    t as int,
                    i as int,
                    generation,
                )
            },
        },
{
    let thread = machine.thread(t);
    let (i, generation): (u16, u32) = match thread.bound {
        None => {
            return Err(Status::StateConflict);
        },
        Some(bound) => bound,
    };
    let owner: u16 = thread.owner_scope;
    move_slot(machine, t, owner);
    machine.set_thread(
        t,
        Thread {
            effective_scope: owner,
            recovery: false,
            bound: None,
            parallelism_scope: Some(owner),
            ..thread
        },
    );
    let invocation = machine.invocation(i as usize);
    if invocation.generation == generation {
        machine.set_invocation(
            i as usize,
            Invocation { refs: invocation.refs.saturating_sub(1), ..invocation },
        );
    }
    Ok(0)
}

} // verus!
