//! Messages: admission, delivery, reply, effect admission and resolution.
//!
//! Admission is one indivisible step. Everything the message will need is
//! reserved before anything becomes visible, and a failure at any point leaves
//! the sender exactly as it was. A receiver never sees three of four
//! capabilities.
//!
//! The header the receiver reads is built here, not copied from the payload:
//! the sending domain, its scope, the grant that was validated, the facet and
//! the causal parent are the kernel's statements.

use vstd::prelude::*;

use crate::abi::request::{
    BindFacetRequest, EndpointCreateRequest, MessageHeader, ReceiveResult, SendRequest,
};
use crate::abi::status::Status;
use crate::abi::{cap_op, message_kind, object_type, receipt_kind, right};
use crate::api::{
    can_mint, can_record, cap_install, cap_release_slot, claim, ctx_ok, hold_grant, mint, receipt,
    reserve_receipt, resolve, Ctx, Stated,
};
use crate::bytes::{array_of, array_of_elements};
use crate::ctrl::{one_less, one_more};
use crate::ipc::{
    Cancel, DeliveredCap, Effect, Endpoint, Invocation, Message, State, NO_DOMAIN, NO_MESSAGE,
};
use crate::limits::{
    MAX_CAPS, MAX_DOMAINS, MAX_ENDPOINTS, MAX_ENDPOINT_QUEUE, MAX_INLINE_PAYLOAD, MAX_INVOCATIONS,
    MAX_MESSAGES, MAX_MESSAGE_CAPS, MAX_SCOPES, MAX_THREADS,
};
use crate::obj::{
    cap_lookup, count_free, filling_takes_one_slot, some_slot_is_first, with_cap, CapEntry,
    ObjKind, ObjRef, NO_GRANT,
};
use crate::scope::{
    self, room_is_separate, room_same, room_splits, scopes_wf, Resource, Scope,
};
use crate::state::{
    cap_ok, grant_ref_ok, ref_ok, DomainState, Machine, MachineModel, Wait, WakeHint,
};
use crate::thread::wake_if;

verus! {

/// The places behind the last capability of a message are zero.
pub open spec fn ends_in_zeros(request: SendRequest) -> bool {
    forall|i: int|
        request.cap_count <= i < MAX_MESSAGE_CAPS ==> #[trigger] request.caps@[i] == 0
            && request.cap_ops@[i] == 0
}

/// Bytes charged per message on top of its payload: the record the kernel keeps
/// for it.
pub const MESSAGE_OVERHEAD_BYTES: u64 = 64;

/// One more, unless that overflows.
pub open spec fn one_more64(n: u64) -> u64 {
    if n < u64::MAX {
        (n + 1) as u64
    } else {
        n
    }
}

/// The first message record from `from` on that is free, or [`MAX_MESSAGES`].
pub open spec fn first_message(messages: Seq<Message>, from: int) -> int
    decreases MAX_MESSAGES - from,
{
    if from >= MAX_MESSAGES {
        MAX_MESSAGES as int
    } else if !messages[from].used {
        from
    } else {
        first_message(messages, from + 1)
    }
}

/// The first invocation record from `from` on that is free, or
/// [`MAX_INVOCATIONS`].
pub open spec fn first_invocation(invocations: Seq<Invocation>, from: int) -> int
    decreases MAX_INVOCATIONS - from,
{
    if from >= MAX_INVOCATIONS {
        MAX_INVOCATIONS as int
    } else if invocations[from].state == State::Empty {
        from
    } else {
        first_invocation(invocations, from + 1)
    }
}

impl MachineModel {
    /// The first message record that is free, or [`MAX_MESSAGES`].
    pub open spec fn free_message(self) -> int {
        first_message(self.messages, 0)
    }

    /// The first invocation record that is free, or [`MAX_INVOCATIONS`].
    pub open spec fn free_invocation(self) -> int {
        first_invocation(self.invocations, 0)
    }

    /// An endpoint accepts messages: it is open and its receiver lives.
    pub open spec fn accepts(self, e: int) -> bool {
        let endpoint = self.endpoints[e];
        let receiver = self.domains[endpoint.receiver_domain as int];
        &&& endpoint.open
        &&& endpoint.receiver_domain != NO_DOMAIN
        &&& receiver.generation == endpoint.receiver_generation
        &&& receiver.state == DomainState::Building || receiver.state == DomainState::Runnable
    }

    /// The first fault among the capabilities of a message, from the one in
    /// place `i` on: each is copied or moved, resolves with the right to be
    /// transferred, and is named once.
    pub open spec fn batch_fault(
        self,
        domain: int,
        request: SendRequest,
        now: u64,
        i: int,
    ) -> Option<Status>
        decreases request.cap_count - i,
    {
        if i >= request.cap_count {
            None
        } else if request.cap_ops@[i] != cap_op::COPY && request.cap_ops@[i] != cap_op::MOVE {
            Some(Status::InvalidArgument)
        } else {
            match self.resolved(domain, request.caps@[i], object_type::NONE, right::TRANSFER, now) {
                Err(code) => Some(code),
                Ok(cap) => if exists|j: int|
                    0 <= j < i && crate::abi::slot_of(#[trigger] request.caps@[j])
                        == crate::abi::slot_of(request.caps@[i]) {
                    Some(Status::InvalidArgument)
                } else {
                    self.batch_fault(domain, request, now, i + 1)
                },
            }
        }
    }

    /// Bytes a message is charged; a report of the kernel costs nobody.
    pub open spec fn message_charge(self, request: SendRequest, kind: u32) -> u64 {
        if kind == message_kind::FAULT {
            0
        } else {
            (MESSAGE_OVERHEAD_BYTES + request.payload_len) as u64
        }
    }

    /// Everything a message needs besides room in the queue is there.
    pub open spec fn can_carry(self, ctx: Ctx, request: SendRequest, kind: u32) -> bool {
        let e = ctx.cap.object.index as int;
        let receiver = self.endpoints[e].receiver_domain as int;
        &&& count_free(self.caps, receiver, 0) >= request.cap_count
        &&& request.cap_count == 0 || self.affords(
            self.domains[receiver].owner_scope,
            Resource::Metadata,
            request.cap_count as int,
        )
        &&& self.free_message() < MAX_MESSAGES
        &&& self.free_invocation() < MAX_INVOCATIONS
        &&& kind == message_kind::FAULT || self.affords(
            self.threads[ctx.thread as int].effective_scope,
            Resource::QueueBytes,
            self.message_charge(request, kind) as int,
        )
        &&& self.can_record()
        &&& self.next_id < u64::MAX
    }

    /// The queue of an endpoint has a cell for a message: one that is not
    /// reserved for an ordinary message, a reserved one for a report.
    pub open spec fn has_cell(self, e: int, kind: u32) -> bool {
        let endpoint = self.endpoints[e];
        if kind == message_kind::FAULT {
            endpoint.reserved_used < endpoint.reserved_cells
        } else {
            endpoint.ordinary_queued() < endpoint.ordinary_cells()
        }
    }

    /// Why a message is refused, or nothing when it is admitted.
    pub open spec fn admission_fault(self, ctx: Ctx, request: SendRequest, kind: u32) -> Option<
        Status,
    > {
        let e = ctx.cap.object.index as int;
        if !self.accepts(e) {
            Some(Status::PeerDead)
        } else if request.payload_len > MAX_INLINE_PAYLOAD || request.cap_count
            > MAX_MESSAGE_CAPS {
            Some(Status::InvalidArgument)
        } else if !ends_in_zeros(request) {
            Some(Status::InvalidArgument)
        } else if self.batch_fault(ctx.domain as int, request, ctx.now, 0) is Some {
            self.batch_fault(ctx.domain as int, request, ctx.now, 0)
        } else if !self.has_cell(e, kind) {
            Some(Status::QueueFull)
        } else if !self.can_carry(ctx, request, kind) {
            Some(Status::LimitExhausted)
        } else {
            None
        }
    }

    /// The machine once the first `n` of the capabilities that `giver` named
    /// when its table was `source` have been put in a receiver's table.
    pub open spec fn placed(
        self,
        source: Seq<CapEntry>,
        giver: int,
        caps: Seq<u64>,
        receiver: int,
        n: nat,
    ) -> MachineModel
        decreases n,
    {
        if n == 0 {
            self
        } else {
            let before = self.placed(source, giver, caps, receiver, (n - 1) as nat);
            let entry = cap_lookup(source, giver, caps[n - 1])->0;
            before.install(receiver, before.slot_for(receiver, None), entry.object, entry.grant)
        }
    }

    /// Where the capability in place `i` is put.
    pub open spec fn placed_at(
        self,
        source: Seq<CapEntry>,
        giver: int,
        caps: Seq<u64>,
        receiver: int,
        i: nat,
    ) -> DeliveredCap {
        let before = self.placed(source, giver, caps, receiver, i);
        let slot = before.slot_for(receiver, None);
        DeliveredCap {
            slot: slot as u16,
            handle: before.fresh_handle(receiver, slot),
            grant: (cap_lookup(source, giver, caps[i as int])->0).grant,
        }
    }

    /// Where all `n` capabilities are put; empty entries behind.
    pub open spec fn placements(
        self,
        source: Seq<CapEntry>,
        giver: int,
        caps: Seq<u64>,
        receiver: int,
        n: int,
    ) -> Seq<DeliveredCap> {
        Seq::new(
            MAX_MESSAGE_CAPS as nat,
            |i: int|
                if i < n {
                    self.placed_at(source, giver, caps, receiver, i as nat)
                } else {
                    DeliveredCap::empty_spec()
                },
        )
    }

    /// The machine once the giver has lost those of the first `n` capabilities
    /// that it moved.
    pub open spec fn given_up(
        self,
        giver: int,
        caps: Seq<u64>,
        ops: Seq<u32>,
        n: nat,
    ) -> MachineModel
        decreases n,
    {
        if n == 0 {
            self
        } else {
            let before = self.given_up(giver, caps, ops, (n - 1) as nat);
            if ops[n - 1] == cap_op::MOVE {
                before.release_slot(giver, crate::abi::slot_of(caps[n - 1]) as int)
            } else {
                before
            }
        }
    }

    /// Identity of the invocation a thread works for, or zero.
    pub open spec fn bound_id(self, t: int) -> u64 {
        match self.threads[t].bound {
            Some((i, _)) => self.invocations[i as int].id,
            None => 0,
        }
    }

    /// The machine once the endpoint no longer lists a thread as waiting.
    pub open spec fn unlisted(self, e: int, t: int) -> MachineModel {
        self.with_endpoint(
            e,
            Endpoint {
                receivers: array_of(self.endpoints[e].receivers@.update(t, false)),
                ..self.endpoints[e]
            },
        )
    }

    /// The machine once the first thread, from `t` on, that the endpoint lists
    /// and that still waits there has been woken. Those listed before it wait
    /// no longer and leave the list.
    pub open spec fn wake_receiver(self, e: int, hint: WakeHint, t: int) -> MachineModel
        decreases MAX_THREADS - t,
    {
        if t >= MAX_THREADS {
            self
        } else if !self.endpoints[e].receivers@[t] {
            self.wake_receiver(e, hint, t + 1)
        } else {
            let wait = Wait::Receive(e as u16, self.endpoints[e].generation);
            let after = self.wake_waiting(t, wait, Status::Success, hint).unlisted(e, t);
            if self.waits_for(t, wait) {
                after
            } else {
                after.wake_receiver(e, hint, t + 1)
            }
        }
    }

    /// The record of an admitted invocation.
    pub open spec fn new_invocation(
        self,
        ctx: Ctx,
        i: int,
        message: int,
        id: u64,
        parent: u64,
        charged: u64,
        waiter: Option<u16>,
    ) -> Invocation {
        let e = ctx.cap.object.index as int;
        let origin_scope = self.threads[ctx.thread as int].effective_scope;
        Invocation {
            state: State::Admitted,
            generation: one_more(self.invocations[i].generation),
            id,
            endpoint: e as u16,
            endpoint_generation: self.endpoints[e].generation,
            epoch: self.endpoints[e].epoch,
            origin_domain: ctx.domain as u16,
            origin_domain_generation: self.domains[ctx.domain as int].generation,
            origin_domain_id: self.domains[ctx.domain as int].id,
            origin_scope,
            origin_scope_id: self.scopes[origin_scope as int].id,
            waiter,
            parent_id: parent,
            grant: ctx.cap.grant,
            facet: ctx.cap.facet,
            cancel: Cancel::Live,
            effect: Effect::Unasked,
            closure_service: 0,
            closure_reserved_ns: 0,
            admitted_ns: ctx.now,
            message: message as u16,
            receiver_domain: self.endpoints[e].receiver_domain,
            charged_bytes: charged,
            refs: 0,
            replied: false,
            outcome: 0,
            reply_len: 0,
            reply_caps: array_of(seq![0u64, 0, 0, 0]),
            reply_cap_count: 0,
            reply_result: 0,
            reply_payload: self.invocations[i].reply_payload,
        }
    }

    /// The machine once everything a message needs has been reserved, its
    /// capabilities are in the receiver's table and the moved ones are gone
    /// from the sender's.
    pub open spec fn prepared(self, ctx: Ctx, request: SendRequest, kind: u32) -> MachineModel {
        let e = ctx.cap.object.index as int;
        self.paid_for(ctx, request, kind).placed(
            self.caps,
            ctx.domain as int,
            request.caps@,
            self.endpoints[e].receiver_domain as int,
            request.cap_count as nat,
        ).given_up(ctx.domain as int, request.caps@, request.cap_ops@, request.cap_count as nat)
    }

    /// The machine before the capabilities of a message are placed.
    pub open spec fn paid_for(self, ctx: Ctx, request: SendRequest, kind: u32) -> MachineModel {
        let named = MachineModel { next_id: (self.next_id + 1) as u64, ..self };
        let charged = if kind == message_kind::FAULT {
            named
        } else {
            named.charge(
                self.threads[ctx.thread as int].effective_scope,
                Resource::QueueBytes,
                self.message_charge(request, kind),
            )
        };
        charged.cell_reserved()
    }

    /// The record of an admitted message.
    pub open spec fn new_message(
        self,
        ctx: Ctx,
        request: SendRequest,
        kind: u32,
        invocation: int,
        caps: Seq<DeliveredCap>,
    ) -> Message {
        let e = ctx.cap.object.index as int;
        Message {
            used: true,
            endpoint: e as u16,
            endpoint_generation: self.endpoints[e].generation,
            invocation: invocation as u16,
            reserved_cell: kind == message_kind::FAULT,
            kind,
            payload: array_of(
                Seq::new(
                    MAX_INLINE_PAYLOAD as nat,
                    |i: int|
                        if i < request.payload_len {
                            request.payload@[i]
                        } else {
                            0
                        },
                ),
            ),
            payload_len: request.payload_len,
            caps: array_of(caps),
            cap_count: request.cap_count,
            charged_bytes: self.message_charge(request, kind),
        }
    }

    /// The machine with the records of a message and its invocation written.
    pub open spec fn admission_recorded(
        self,
        ctx: Ctx,
        request: SendRequest,
        kind: u32,
        waiter: Option<u16>,
        i: int,
        k: int,
        id: u64,
        parent: u64,
        caps: Seq<DeliveredCap>,
    ) -> MachineModel {
        let invocation = self.new_invocation(
            ctx,
            i,
            k,
            id,
            parent,
            self.message_charge(request, kind),
            waiter,
        );
        self.with_invocation(i, invocation).count_grant(ctx.cap.grant, true).with_message(
            k,
            self.new_message(ctx, request, kind, i, caps),
        )
    }

    /// The machine once message `k` stands behind all others of an endpoint,
    /// and `scope` owes its outcome.
    pub open spec fn queue_message(self, e: int, k: int, kind: u32, scope: u16) -> MachineModel {
        self.with_queue(e, self.queues[e].push(k as u16)).with_endpoint(
            e,
            Endpoint {
                queued: one_more(self.endpoints[e].queued),
                reserved_used: if kind == message_kind::FAULT {
                    one_more(self.endpoints[e].reserved_used)
                } else {
                    self.endpoints[e].reserved_used
                },
                admitted: one_more64(self.endpoints[e].admitted),
                ..self.endpoints[e]
            },
        ).with_scope(
            scope as int,
            Scope {
                invocations_pending: one_more(self.scopes[scope as int].invocations_pending),
                ..self.scopes[scope as int]
            },
        )
    }

    /// What [`admit_message`] returns for an admitted message.
    pub open spec fn admission(self, ctx: Ctx, request: SendRequest, kind: u32) -> Admitted {
        let i = self.free_invocation();
        Admitted {
            invocation: i as u16,
            generation: one_more(self.prepared(ctx, request, kind).invocations[i].generation),
            id: self.next_id,
        }
    }

    /// The machine once a message has been admitted.
    pub open spec fn admitted(
        self,
        ctx: Ctx,
        request: SendRequest,
        kind: u32,
        waiter: Option<u16>,
    ) -> MachineModel {
        let e = ctx.cap.object.index as int;
        let receiver = self.endpoints[e].receiver_domain as int;
        let i = self.free_invocation();
        let k = self.free_message();
        let parent = self.bound_id(ctx.thread as int);
        let scope = self.threads[ctx.thread as int].effective_scope;
        let ready = self.prepared(ctx, request, kind);
        let caps = self.paid_for(ctx, request, kind).placements(
            self.caps,
            ctx.domain as int,
            request.caps@,
            receiver,
            request.cap_count as int,
        );
        let queued = ready.admission_recorded(
            ctx,
            request,
            kind,
            waiter,
            i,
            k,
            self.next_id,
            parent,
            caps,
        ).queue_message(e, k, kind, scope);
        queued.receipted(
            Stated {
                kind: receipt_kind::ADMIT,
                domain: ctx.domain,
                scope,
                object: queued.endpoints[e].id,
                grant: queued.grants[ctx.cap.grant as int].id,
                parent,
                result: Status::Success,
                a: self.next_id,
                b: ctx.cap.facet,
            },
            ctx.now,
            true,
        ).wake_receiver(
            e,
            if waiter is None {
                WakeHint::Any
            } else {
                WakeHint::Sync
            },
            0,
        )
    }
}

/// Finds the first message record that is free.
fn find_message(machine: &Machine) -> (at: usize)
    requires
        machine.wf(),
    ensures
        at == machine@.free_message(),
        at <= MAX_MESSAGES,
{
    let mut at: usize = 0;
    while at < MAX_MESSAGES && machine.message(at).used
        invariant
            machine.wf(),
            at <= MAX_MESSAGES,
            machine@.free_message() == first_message(machine@.messages, at as int),
        decreases MAX_MESSAGES - at,
    {
        at += 1;
    }
    at
}

/// Finds the first invocation record that is free.
fn find_invocation(machine: &Machine) -> (at: usize)
    requires
        machine.wf(),
    ensures
        at == machine@.free_invocation(),
        at <= MAX_INVOCATIONS,
{
    let mut at: usize = 0;
    while at < MAX_INVOCATIONS && machine.invocation(at).state != State::Empty
        invariant
            machine.wf(),
            at <= MAX_INVOCATIONS,
            machine@.free_invocation() == first_invocation(machine@.invocations, at as int),
        decreases MAX_INVOCATIONS - at,
    {
        at += 1;
    }
    at
}

/// Whether an endpoint accepts messages.
fn accepts(machine: &Machine, e: usize) -> (yes: bool)
    requires
        machine.wf(),
        e < MAX_ENDPOINTS,
    ensures
        yes == machine@.accepts(e as int),
        yes ==> machine@.endpoints[e as int].receiver_domain < MAX_DOMAINS,
{
    let endpoint = machine.endpoint(e);
    if !endpoint.open || endpoint.receiver_domain == NO_DOMAIN {
        return false;
    }
    let receiver = machine.domain(endpoint.receiver_domain as usize);
    receiver.generation == endpoint.receiver_generation && (receiver.state
        == DomainState::Building || receiver.state == DomainState::Runnable)
}

/// Whether an earlier capability of the message names the same slot.
fn named_before(request: &SendRequest, i: usize) -> (yes: bool)
    requires
        i < MAX_MESSAGE_CAPS,
    ensures
        yes == exists|j: int|
            0 <= j < i && crate::abi::slot_of(#[trigger] request.caps@[j])
                == crate::abi::slot_of(request.caps@[i as int]),
{
    for j in 0..i
        invariant
            i < MAX_MESSAGE_CAPS,
            forall|k: int|
                0 <= k < j ==> crate::abi::slot_of(#[trigger] request.caps@[k])
                    != crate::abi::slot_of(request.caps@[i as int]),
    {
        if crate::abi::handle_slot(request.caps[j]) == crate::abi::handle_slot(request.caps[i]) {
            assert(crate::abi::slot_of(request.caps@[j as int]) == crate::abi::slot_of(
                request.caps@[i as int],
            ));
            return true;
        }
    }
    false
}

/// Resolves every capability of a message before anything moves.
fn check_batch(machine: &Machine, domain: usize, request: &SendRequest, now: u64) -> (result:
    Result<[CapEntry; MAX_MESSAGE_CAPS], Status>)
    requires
        machine.wf(),
        domain < MAX_DOMAINS,
        request.cap_count <= MAX_MESSAGE_CAPS,
    ensures
        match result {
            Ok(sources) => {
                &&& machine@.batch_fault(domain as int, *request, now, 0) is None
                &&& are_sources(
                    machine@.caps,
                    domain as int,
                    request.caps@,
                    sources@,
                    request.cap_count as int,
                )
            },
            Err(code) => machine@.batch_fault(domain as int, *request, now, 0) == Some(code),
        },
{
    let mut sources: [CapEntry; MAX_MESSAGE_CAPS] = [CapEntry::empty(); MAX_MESSAGE_CAPS];
    let count: usize = request.cap_count as usize;
    for i in 0..count
        invariant
            machine.wf(),
            domain < MAX_DOMAINS,
            count == request.cap_count,
            count <= MAX_MESSAGE_CAPS,
            machine@.batch_fault(domain as int, *request, now, 0) == machine@.batch_fault(
                domain as int,
                *request,
                now,
                i as int,
            ),
            are_sources(machine@.caps, domain as int, request.caps@, sources@, i as int),
    {
        let operation: u32 = request.cap_ops[i];
        if operation != cap_op::COPY && operation != cap_op::MOVE {
            return Err(Status::InvalidArgument);
        }
        let handle: u64 = request.caps[i];
        match resolve(machine, domain, handle, object_type::NONE, right::TRANSFER, now) {
            Err(code) => {
                return Err(code);
            },
            Ok(_) => {},
        }
        if named_before(request, i) {
            return Err(Status::InvalidArgument);
        }
        match machine.cap_named(domain, handle) {
            Some(entry) => {
                sources[i] = entry;
            },
            None => {},
        }
    }
    Ok(sources)
}

/// `sources` holds the entries the first `n` handles name.
pub open spec fn are_sources(
    table: Seq<CapEntry>,
    giver: int,
    caps: Seq<u64>,
    sources: Seq<CapEntry>,
    n: int,
) -> bool {
    forall|i: int|
        0 <= i < n ==> {
            &&& cap_lookup(table, giver, caps[i]) == Some(#[trigger] sources[i])
            &&& cap_ok(sources[i])
            &&& crate::abi::slot_of(caps[i]) < MAX_CAPS
        }
}

/// Counting a reference changes no room.
proof fn room_after_count(m: MachineModel, o: ObjRef, s: u16, r: Resource, n: int)
    requires
        scopes_wf(m.scopes),
        s < MAX_SCOPES,
        ref_ok(o),
    ensures
        m.count_ref(o, true).affords(s, r, n) == m.affords(s, r, n),
{
    room_same(m.scopes, m.count_ref(o, true).scopes, s as int, r, n);
}

/// A receiver that has slots and metadata for `n` capabilities can be given one,
/// and then has them for one fewer.
proof fn one_more_fits(m: MachineModel, receiver: int, o: ObjRef, g: u16, n: int)
    requires
        m.sized(),
        scopes_wf(m.scopes),
        0 <= receiver < MAX_DOMAINS,
        m.domains[receiver].owner_scope < MAX_SCOPES,
        ref_ok(o),
        n > 0,
        count_free(m.caps, receiver, 0) >= n,
        m.affords(m.domains[receiver].owner_scope, Resource::Metadata, n),
    ensures
        m.can_install(receiver, None),
        ({
            let next = m.install(receiver, m.slot_for(receiver, None), o, g);
            &&& next.domains[receiver].owner_scope == m.domains[receiver].owner_scope
            &&& count_free(next.caps, receiver, 0) >= n - 1
            &&& next.affords(m.domains[receiver].owner_scope, Resource::Metadata, n - 1)
        }),
{
    let owner = m.domains[receiver].owner_scope;
    let slot = m.slot_for(receiver, None);
    some_slot_is_first(m.caps, receiver, 0);
    scope::less_fits(m.scopes, owner as int, Resource::Metadata, 1, n);
    filling_takes_one_slot(m.caps, receiver, slot, o, g, 0);
    room_splits(m.scopes, owner as int, owner as int, Resource::Metadata, 1, n - 1);
    scope::charged_keeps_tree(m.scopes, owner as int, Resource::Metadata, 1);
    let paid = m.charge(owner, Resource::Metadata, 1);
    let filled = MachineModel {
        caps: with_cap(paid.caps, receiver, slot, o, g),
        ..paid
    }.count_grant(g, true);
    room_after_count(filled, o, owner, Resource::Metadata, n - 1);
    assert(m.install(receiver, slot, o, g) == filled.count_ref(o, true));
    assert(filled.count_ref(o, true).caps == with_cap(m.caps, receiver, slot, o, g));
}

/// Puts every capability of a message in the receiver's table.
pub(crate) fn place_all(
    machine: &mut Machine,
    Ghost(source): Ghost<Seq<CapEntry>>,
    Ghost(giver): Ghost<int>,
    Ghost(caps): Ghost<Seq<u64>>,
    sources: &[CapEntry; MAX_MESSAGE_CAPS],
    receiver: usize,
    count: usize,
) -> (installed: [DeliveredCap; MAX_MESSAGE_CAPS])
    requires
        old(machine).wf(),
        receiver < MAX_DOMAINS,
        count <= MAX_MESSAGE_CAPS,
        are_sources(source, giver, caps, sources@, count as int),
        count_free(old(machine)@.caps, receiver as int, 0) >= count,
        count == 0 || old(machine)@.affords(
            old(machine)@.domains[receiver as int].owner_scope,
            Resource::Metadata,
            count as int,
        ),
    ensures
        final(machine).wf(),
        final(machine).same_tables(*old(machine)),
        final(machine)@ == old(machine)@.placed(
            source,
            giver,
            caps,
            receiver as int,
            count as nat,
        ),
        installed@ == old(machine)@.placements(
            source,
            giver,
            caps,
            receiver as int,
            count as int,
        ),
        forall|i: int|
            0 <= i < count ==> (#[trigger] installed@[i]).slot < MAX_CAPS && grant_ref_ok(
                installed@[i].grant,
            ),
{
    let mut installed: [DeliveredCap; MAX_MESSAGE_CAPS] = [DeliveredCap::empty(); MAX_MESSAGE_CAPS];
    let owner: u16 = machine.domain(receiver).owner_scope;
    for i in 0..count
        invariant
            machine.wf(),
            machine.same_tables(*old(machine)),
            receiver < MAX_DOMAINS,
            count <= MAX_MESSAGE_CAPS,
            owner < MAX_SCOPES,
            are_sources(source, giver, caps, sources@, count as int),
            machine@ == old(machine)@.placed(source, giver, caps, receiver as int, i as nat),
            machine@.domains[receiver as int].owner_scope == owner,
            count_free(machine@.caps, receiver as int, 0) >= count - i,
            i == count || machine@.affords(owner, Resource::Metadata, count - i),
            forall|k: int|
                0 <= k < MAX_MESSAGE_CAPS ==> #[trigger] installed@[k] == if k < i {
                    old(machine)@.placed_at(source, giver, caps, receiver as int, k as nat)
                } else {
                    DeliveredCap::empty_spec()
                },
            forall|k: int|
                0 <= k < i ==> (#[trigger] installed@[k]).slot < MAX_CAPS && grant_ref_ok(
                    installed@[k].grant,
                ),
    {
        let entry = sources[i];
        let ghost before = machine@;
        let slot: usize = machine.free_cap(receiver);
        proof {
            machine.wf_scopes();
            machine.wf_sized();
            one_more_fits(before, receiver as int, entry.object, entry.grant, count - i);
        }
        match cap_install(machine, receiver, entry.object, entry.grant, None) {
            Some(handle) => {
                installed[i] = DeliveredCap { slot: slot as u16, handle, grant: entry.grant };
            },
            None => {},
        }
    }
    assert(installed@ =~= old(machine)@.placements(
        source,
        giver,
        caps,
        receiver as int,
        count as int,
    ));
    installed
}

/// Takes the moved capabilities from the giver.
pub(crate) fn give_up(
    machine: &mut Machine,
    giver: usize,
    caps: &[u64; MAX_MESSAGE_CAPS],
    ops: &[u32; MAX_MESSAGE_CAPS],
    count: usize,
)
    requires
        old(machine).wf(),
        giver < MAX_DOMAINS,
        count <= MAX_MESSAGE_CAPS,
        forall|i: int| 0 <= i < count ==> crate::abi::slot_of(#[trigger] caps@[i]) < MAX_CAPS,
    ensures
        final(machine).wf(),
        final(machine).same_tables(*old(machine)),
        final(machine)@ == old(machine)@.given_up(giver as int, caps@, ops@, count as nat),
{
    for i in 0..count
        invariant
            machine.wf(),
            machine.same_tables(*old(machine)),
            giver < MAX_DOMAINS,
            count <= MAX_MESSAGE_CAPS,
            forall|i: int| 0 <= i < count ==> crate::abi::slot_of(#[trigger] caps@[i]) < MAX_CAPS,
            machine@ == old(machine)@.given_up(giver as int, caps@, ops@, i as nat),
    {
        if ops[i] == cap_op::MOVE {
            cap_release_slot(machine, giver, crate::abi::handle_slot(caps[i]) as usize);
        }
    }
}

/// Wakes a thread that waits for a message on an endpoint.
fn wake_receiver(machine: &mut Machine, e: usize, hint: WakeHint)
    requires
        old(machine).wf(),
        e < MAX_ENDPOINTS,
    ensures
        final(machine).wf(),
        final(machine).same_tables(*old(machine)),
        final(machine)@ == old(machine)@.wake_receiver(e as int, hint, 0),
{
    for t in 0..MAX_THREADS
        invariant
            machine.wf(),
            machine.same_tables(*old(machine)),
            e < MAX_ENDPOINTS,
            machine@.wake_receiver(e as int, hint, t as int) == old(machine)@.wake_receiver(
                e as int,
                hint,
                0,
            ),
    {
        let endpoint = machine.endpoint(e);
        if endpoint.receivers[t] {
            let wait = Wait::Receive(e as u16, endpoint.generation);
            let woken = wake_if(machine, t, wait, Status::Success, hint);
            // Whoever is listed and no longer waits here leaves the list too.
            let mut receivers = endpoint.receivers;
            receivers[t] = false;
            proof {
                array_of_elements(receivers);
            }
            machine.set_endpoint(e, Endpoint { receivers, ..endpoint });
            if woken {
                return;
            }
        }
    }
}

/// Identity of the invocation a thread works for, or zero.
pub fn bound_id(machine: &Machine, t: usize) -> (id: u64)
    requires
        machine.wf(),
        t < MAX_THREADS,
    ensures
        id == machine@.bound_id(t as int),
{
    match machine.thread(t).bound {
        Some((i, _)) => machine.invocation(i as usize).id,
        None => 0,
    }
}

/// The payload with everything behind its significant bytes cleared.
fn cleared(payload: &[u8; MAX_INLINE_PAYLOAD], len: usize) -> (out: [u8; MAX_INLINE_PAYLOAD])
    ensures
        out@ == Seq::new(
            MAX_INLINE_PAYLOAD as nat,
            |i: int|
                if i < len {
                    payload@[i]
                } else {
                    0
                },
        ),
{
    let mut out: [u8; MAX_INLINE_PAYLOAD] = [0; MAX_INLINE_PAYLOAD];
    for i in 0..MAX_INLINE_PAYLOAD
        invariant
            forall|k: int|
                0 <= k < MAX_INLINE_PAYLOAD ==> #[trigger] out@[k] == if k < i && k < len {
                    payload@[k]
                } else {
                    0
                },
    {
        if i < len {
            out[i] = payload[i];
        }
    }
    assert(out@ =~= Seq::new(
        MAX_INLINE_PAYLOAD as nat,
        |i: int|
            if i < len {
                payload@[i]
            } else {
                0
            },
    ));
    out
}

/// An admitted message.
#[derive(Clone, Copy, Debug, PartialEq, Eq, Structural)]
pub struct Admitted {
    /// Its invocation record.
    pub invocation: u16,
    /// Generation of that record.
    pub generation: u32,
    /// Identity of the invocation.
    pub id: u64,
}

/// Why a message is refused, before anything is reserved for it.
fn check_admission(machine: &Machine, ctx: &Ctx, request: &SendRequest, kind: u32) -> (result:
    Result<[CapEntry; MAX_MESSAGE_CAPS], Status>)
    requires
        machine.wf(),
        ctx_ok(*ctx, ObjKind::Endpoint),
    ensures
        match result {
            Ok(sources) => {
                &&& machine@.admission_fault(*ctx, *request, kind) is None
                &&& machine@.endpoints[ctx.cap.object.index as int].receiver_domain < MAX_DOMAINS
                &&& are_sources(
                    machine@.caps,
                    ctx.domain as int,
                    request.caps@,
                    sources@,
                    request.cap_count as int,
                )
            },
            Err(code) => machine@.admission_fault(*ctx, *request, kind) == Some(code),
        },
{
    let e: usize = ctx.cap.object.index as usize;
    if !accepts(machine, e) {
        return Err(Status::PeerDead);
    }
    if request.payload_len as usize > MAX_INLINE_PAYLOAD || request.cap_count as usize
        > MAX_MESSAGE_CAPS {
        return Err(Status::InvalidArgument);
    }
    if !rest_is_zero(request) {
        return Err(Status::InvalidArgument);
    }
    let sources = match check_batch(machine, ctx.domain, request, ctx.now) {
        Err(code) => {
            return Err(code);
        },
        Ok(sources) => sources,
    };
    let endpoint = machine.endpoint(e);
    let room = if kind == message_kind::FAULT {
        endpoint.reserved_used < endpoint.reserved_cells
    } else {
        endpoint.has_ordinary_room()
    };
    if !room {
        return Err(Status::QueueFull);
    }
    let receiver: usize = endpoint.receiver_domain as usize;
    if machine.free_caps(receiver) < request.cap_count as usize {
        return Err(Status::LimitExhausted);
    }
    let owner: u16 = machine.domain(receiver).owner_scope;
    if request.cap_count != 0 && !machine.affords(
        owner,
        Resource::Metadata,
        request.cap_count as u64,
    ) {
        return Err(Status::LimitExhausted);
    }
    if find_message(machine) == MAX_MESSAGES || find_invocation(machine) == MAX_INVOCATIONS {
        return Err(Status::LimitExhausted);
    }
    if kind != message_kind::FAULT {
        let scope: u16 = machine.thread(ctx.thread).effective_scope;
        let bytes: u64 = MESSAGE_OVERHEAD_BYTES + request.payload_len as u64;
        if !machine.affords(scope, Resource::QueueBytes, bytes) {
            return Err(Status::LimitExhausted);
        }
    }
    if !can_record(machine) || !machine.has_id() {
        return Err(Status::LimitExhausted);
    }
    Ok(sources)
}

/// Whether the places behind the last capability are zero.
fn rest_is_zero(request: &SendRequest) -> (yes: bool)
    requires
        request.cap_count <= MAX_MESSAGE_CAPS,
    ensures
        yes == ends_in_zeros(*request),
{
    let first: usize = request.cap_count as usize;
    for i in first..MAX_MESSAGE_CAPS
        invariant
            first == request.cap_count,
            forall|k: int|
                first <= k < i ==> #[trigger] request.caps@[k] == 0 && request.cap_ops@[k] == 0,
    {
        if request.caps[i] != 0 || request.cap_ops[i] != 0 {
            assert(request.caps@[i as int] != 0 || request.cap_ops@[i as int] != 0);
            return false;
        }
    }
    true
}

/// Reserves what a message needs, places its capabilities and takes the moved
/// ones from the sender.
fn prepare(
    machine: &mut Machine,
    ctx: &Ctx,
    request: &SendRequest,
    kind: u32,
    sources: &[CapEntry; MAX_MESSAGE_CAPS],
) -> (installed: [DeliveredCap; MAX_MESSAGE_CAPS])
    requires
        old(machine).wf(),
        ctx_ok(*ctx, ObjKind::Endpoint),
        old(machine)@.admission_fault(*ctx, *request, kind) is None,
        old(machine)@.endpoints[ctx.cap.object.index as int].receiver_domain < MAX_DOMAINS,
        are_sources(
            old(machine)@.caps,
            ctx.domain as int,
            request.caps@,
            sources@,
            request.cap_count as int,
        ),
    ensures
        final(machine).wf(),
        final(machine).same_tables(*old(machine)),
        final(machine)@ == old(machine)@.prepared(*ctx, *request, kind),
        installed@ == old(machine)@.paid_for(*ctx, *request, kind).placements(
            old(machine)@.caps,
            ctx.domain as int,
            request.caps@,
            old(machine)@.endpoints[ctx.cap.object.index as int].receiver_domain as int,
            request.cap_count as int,
        ),
        forall|i: int|
            0 <= i < request.cap_count ==> (#[trigger] installed@[i]).slot < MAX_CAPS
                && grant_ref_ok(installed@[i].grant),
{
    let e: usize = ctx.cap.object.index as usize;
    let receiver: usize = machine.endpoint(e).receiver_domain as usize;
    let owner: u16 = machine.domain(receiver).owner_scope;
    let scope: u16 = machine.thread(ctx.thread).effective_scope;
    let ghost before = machine@;
    proof {
        machine.wf_scopes();
        if kind != message_kind::FAULT {
            room_is_separate(
                before.scopes,
                owner as int,
                Resource::Metadata,
                request.cap_count as int,
                scope as int,
                Resource::QueueBytes,
                before.message_charge(*request, kind) as int,
            );
        }
    }
    machine.take_id();
    if kind != message_kind::FAULT {
        let bytes: u64 = MESSAGE_OVERHEAD_BYTES + request.payload_len as u64;
        machine.charge(scope, Resource::QueueBytes, bytes);
    }
    reserve_receipt(machine);
    assert(machine@ == before.paid_for(*ctx, *request, kind));
    let count: usize = request.cap_count as usize;
    let installed = place_all(
        machine,
        Ghost(before.caps),
        Ghost(ctx.domain as int),
        Ghost(request.caps@),
        sources,
        receiver,
        count,
    );
    // The whole set is installed, so consuming the moves is now correct.
    assert forall|i: int| 0 <= i < count implies crate::abi::slot_of(#[trigger] request.caps@[i])
        < MAX_CAPS by {
        assert(cap_ok(sources@[i]));
    }
    give_up(machine, ctx.domain, &request.caps, &request.cap_ops, count);
    installed
}

/// Writes the records of a message and its invocation.
fn record_admission(
    machine: &mut Machine,
    ctx: &Ctx,
    request: &SendRequest,
    kind: u32,
    waiter: Option<u16>,
    i: usize,
    k: usize,
    id: u64,
    parent: u64,
    charged: u64,
    installed: &[DeliveredCap; MAX_MESSAGE_CAPS],
)
    requires
        old(machine).wf(),
        ctx_ok(*ctx, ObjKind::Endpoint),
        waiter matches Some(t) ==> t < MAX_THREADS,
        i < MAX_INVOCATIONS,
        k < MAX_MESSAGES,
        charged == old(machine)@.message_charge(*request, kind),
        request.cap_count <= MAX_MESSAGE_CAPS,
        request.payload_len <= MAX_INLINE_PAYLOAD,
        forall|i: int|
            0 <= i < request.cap_count ==> (#[trigger] installed@[i]).slot < MAX_CAPS
                && grant_ref_ok(installed@[i].grant),
    ensures
        final(machine).wf(),
        final(machine).same_tables(*old(machine)),
        final(machine)@ == old(machine)@.admission_recorded(
            *ctx,
            *request,
            kind,
            waiter,
            i as int,
            k as int,
            id,
            parent,
            installed@,
        ),
{
    let e: usize = ctx.cap.object.index as usize;
    let endpoint = machine.endpoint(e);
    let origin = machine.domain(ctx.domain);
    let origin_scope: u16 = machine.thread(ctx.thread).effective_scope;
    let origin_scope_id: u64 = machine.scope(origin_scope as usize).id;
    let record = machine.invocation(i);
    let none: [u64; MAX_MESSAGE_CAPS] = [0; MAX_MESSAGE_CAPS];
    proof {
        assert(none@ =~= seq![0u64, 0, 0, 0]);
        array_of_elements(none);
        array_of_elements(*installed);
    }
    machine.set_invocation(
        i,
        Invocation {
            state: State::Admitted,
            generation: record.generation.saturating_add(1),
            id,
            endpoint: e as u16,
            endpoint_generation: endpoint.generation,
            epoch: endpoint.epoch,
            origin_domain: ctx.domain as u16,
            origin_domain_generation: origin.generation,
            origin_domain_id: origin.id,
            origin_scope,
            origin_scope_id,
            waiter,
            parent_id: parent,
            grant: ctx.cap.grant,
            facet: ctx.cap.facet,
            cancel: Cancel::Live,
            effect: Effect::Unasked,
            closure_service: 0,
            closure_reserved_ns: 0,
            admitted_ns: ctx.now,
            message: k as u16,
            receiver_domain: endpoint.receiver_domain,
            charged_bytes: charged,
            refs: 0,
            replied: false,
            outcome: 0,
            reply_len: 0,
            reply_caps: none,
            reply_cap_count: 0,
            reply_result: 0,
            reply_payload: record.reply_payload,
        },
    );
    hold_grant(machine, ctx.cap.grant, true);
    // Everything past the significant bytes is cleared, because the whole array
    // crosses to the receiver.
    let payload = cleared(&request.payload, request.payload_len as usize);
    proof {
        array_of_elements(payload);
    }
    machine.set_message(
        k,
        Message {
            used: true,
            endpoint: e as u16,
            endpoint_generation: endpoint.generation,
            invocation: i as u16,
            reserved_cell: kind == message_kind::FAULT,
            kind,
            payload,
            payload_len: request.payload_len,
            caps: *installed,
            cap_count: request.cap_count,
            charged_bytes: charged,
        },
    );
}

/// Queues a message behind all others of an endpoint.
fn queue_message(machine: &mut Machine, e: usize, k: u16, kind: u32, scope: u16)
    requires
        old(machine).wf(),
        e < MAX_ENDPOINTS,
        k < MAX_MESSAGES,
        scope < MAX_SCOPES,
    ensures
        final(machine).wf(),
        final(machine).same_tables(*old(machine)),
        final(machine)@ == old(machine)@.queue_message(e as int, k as int, kind, scope),
{
    machine.push_queue(e, k);
    let endpoint = machine.endpoint(e);
    machine.set_endpoint(
        e,
        Endpoint {
            queued: endpoint.queued.saturating_add(1),
            reserved_used: if kind == message_kind::FAULT {
                endpoint.reserved_used.saturating_add(1)
            } else {
                endpoint.reserved_used
            },
            admitted: endpoint.admitted.saturating_add(1),
            ..endpoint
        },
    );
    let origin = machine.scope(scope as usize);
    machine.set_scope(
        scope as usize,
        Scope { invocations_pending: origin.invocations_pending.saturating_add(1), ..origin },
    );
}

/// The joint admission point: validate, reserve everything, then publish.
pub fn admit_message(
    machine: &mut Machine,
    ctx: &Ctx,
    request: &SendRequest,
    kind: u32,
    waiter: Option<u16>,
) -> (result: Result<Admitted, Status>)
    requires
        old(machine).wf(),
        ctx_ok(*ctx, ObjKind::Endpoint),
        waiter matches Some(t) ==> t < MAX_THREADS,
    ensures
        final(machine).wf(),
        final(machine).same_tables(*old(machine)),
        match old(machine)@.admission_fault(*ctx, *request, kind) {
            Some(code) => {
                &&& result == Err::<Admitted, Status>(code)
                &&& final(machine)@ == old(machine)@
            },
            None => {
                &&& final(machine)@ == old(machine)@.admitted(*ctx, *request, kind, waiter)
                &&& result == Ok::<Admitted, Status>(
                    old(machine)@.admission(*ctx, *request, kind),
                )
            },
        },
{
    let sources = match check_admission(machine, ctx, request, kind) {
        Err(code) => {
            return Err(code);
        },
        Ok(sources) => sources,
    };
    let e: usize = ctx.cap.object.index as usize;
    let i: usize = find_invocation(machine);
    let k: usize = find_message(machine);
    let id: u64 = machine.next_id;
    let parent: u64 = bound_id(machine, ctx.thread);
    let charged: u64 = if kind == message_kind::FAULT {
        0
    } else {
        MESSAGE_OVERHEAD_BYTES + request.payload_len as u64
    };
    let scope: u16 = machine.thread(ctx.thread).effective_scope;
    let installed = prepare(machine, ctx, request, kind, &sources);
    let ghost ready = machine@;
    let generation: u32 = machine.invocation(i).generation.saturating_add(1);
    record_admission(machine, ctx, request, kind, waiter, i, k, id, parent, charged, &installed);
    queue_message(machine, e, k as u16, kind, scope);
    let object: u64 = machine.endpoint(e).id;
    let grant: u64 = machine.grant(ctx.cap.grant as usize).id;
    receipt(
        machine,
        Stated {
            kind: receipt_kind::ADMIT,
            domain: ctx.domain,
            scope,
            object,
            grant,
            parent,
            result: Status::Success,
            a: id,
            b: ctx.cap.facet,
        },
        ctx.now,
        true,
    );
    // A caller that will block for the reply hands its processor to the
    // receiver; a sender that keeps running sends it to an idle one.
    let hint = if waiter.is_none() {
        WakeHint::Any
    } else {
        WakeHint::Sync
    };
    wake_receiver(machine, e, hint);
    Ok(Admitted { invocation: i as u16, generation, id })
}

/// Rights an invocation capability carries when a receiver takes the message:
/// inspect, transfer, destroy, reply, effect, resolve and bind.
pub const TICKET_RIGHTS: u32 = 0xFB;

/// The first endpoint record from `from` on that is free, or [`MAX_ENDPOINTS`].
pub open spec fn first_endpoint(endpoints: Seq<Endpoint>, from: int) -> int
    decreases MAX_ENDPOINTS - from,
{
    if from >= MAX_ENDPOINTS {
        MAX_ENDPOINTS as int
    } else if !endpoints[from].used {
        from
    } else {
        first_endpoint(endpoints, from + 1)
    }
}

/// The deadline of a capability derived from one that expires at `parent`: the
/// parent's where none is asked for; none that is later.
pub open spec fn narrowed_deadline(parent: u64, asked: u64) -> Option<u64> {
    if asked == 0 {
        Some(parent)
    } else if parent != 0 && asked > parent {
        None
    } else {
        Some(asked)
    }
}

/// The deadline of a derived capability, or nothing when the one asked for is
/// later than the parent's.
pub fn narrow_deadline(parent: u64, asked: u64) -> (deadline: Option<u64>)
    ensures
        deadline == narrowed_deadline(parent, asked),
{
    if asked == 0 {
        Some(parent)
    } else if parent != 0 && asked > parent {
        None
    } else {
        Some(asked)
    }
}

impl MachineModel {
    /// Why an endpoint is not created, or nothing when it is.
    pub open spec fn endpoint_fault(self, ctx: Ctx, request: EndpointCreateRequest) -> Option<
        Status,
    > {
        let sponsor = ctx.cap.object.index;
        if request.reserved0 != 0 || request.queue_capacity == 0 || request.queue_capacity
            > MAX_ENDPOINT_QUEUE {
            Some(Status::InvalidArgument)
        } else if !self.is_open(sponsor) {
            Some(Status::ScopeClosed)
        } else if first_endpoint(self.endpoints, 0) == MAX_ENDPOINTS || !self.can_create(
            sponsor,
            ctx.domain as int,
        ) {
            Some(Status::LimitExhausted)
        } else {
            None
        }
    }

    /// The machine once an endpoint has been created.
    pub open spec fn endpoint_created(
        self,
        ctx: Ctx,
        request: EndpointCreateRequest,
    ) -> MachineModel {
        let sponsor = ctx.cap.object.index;
        let i = first_endpoint(self.endpoints, 0);
        let generation = one_more(self.endpoints[i].generation);
        self.claimed(sponsor).with_endpoint(
            i,
            Endpoint {
                used: true,
                open: true,
                generation,
                id: self.next_id,
                epoch: self.next_id,
                owner_scope: sponsor,
                capacity: request.queue_capacity,
                label: request.label,
                ..Endpoint::empty_spec()
            },
        ).owned(
            ctx.domain as int,
            ObjRef { kind: ObjKind::Endpoint, index: i as u16, generation },
            ObjKind::Endpoint.mask_spec(),
        )
    }

    /// Why a facet is not bound, or nothing when it is.
    pub open spec fn facet_fault(self, ctx: Ctx, request: BindFacetRequest) -> Option<Status> {
        let parent = self.grants[ctx.cap.grant as int];
        if request.reserved0 != 0 || request.facet != 0 {
            Some(Status::InvalidArgument)
        } else if request.rights_mask & !ctx.cap.rights != 0 {
            Some(Status::InsufficientRights)
        } else if request.rights_mask & !ObjKind::Endpoint.mask_spec() != 0 {
            Some(Status::InvalidArgument)
        } else if narrowed_deadline(parent.deadline_ns, request.deadline_ns) is None {
            Some(Status::InvalidArgument)
        } else if self.endpoints[ctx.cap.object.index as int].next_facet == u64::MAX
            || !self.can_mint(ctx.domain as int, ctx.cap.grant) {
            Some(Status::LimitExhausted)
        } else {
            None
        }
    }

    /// The machine once a facet has been bound.
    pub open spec fn facet_bound(self, ctx: Ctx, request: BindFacetRequest) -> MachineModel {
        let e = ctx.cap.object.index as int;
        let parent = self.grants[ctx.cap.grant as int];
        self.with_endpoint(
            e,
            Endpoint {
                next_facet: (self.endpoints[e].next_facet + 1) as u64,
                facets: one_more(self.endpoints[e].facets),
                ..self.endpoints[e]
            },
        ).minted(
            ctx.domain as int,
            ctx.cap.grant,
            ctx.cap.object,
            request.rights_mask,
            narrowed_deadline(parent.deadline_ns, request.deadline_ns)->0,
            parent.life_scope,
            self.endpoints[e].next_facet,
        )
    }

    /// Identity of a grant, or zero for none.
    pub open spec fn grant_id(self, g: u16) -> u64 {
        if g == NO_GRANT {
            0
        } else {
            self.grants[g as int].id
        }
    }

    /// Every right that the first `n` capabilities of a message carry.
    pub open spec fn rights_along(self, caps: Seq<DeliveredCap>, n: int) -> u32
        decreases n,
    {
        if n <= 0 {
            0
        } else if caps[n - 1].grant == NO_GRANT {
            self.rights_along(caps, n - 1)
        } else {
            self.rights_along(caps, n - 1) | self.grants[caps[n - 1].grant as int].rights
        }
    }

    /// Why the message `k` at the head of an endpoint's queue is not delivered,
    /// or nothing when it is.
    pub open spec fn delivery_fault(self, domain: int, e: int, k: int) -> Option<Status> {
        let invocation = self.invocations[self.messages[k].invocation as int];
        if invocation.endpoint != e || invocation.endpoint_generation
            != self.endpoints[e].generation {
            Some(Status::StateConflict)
        } else if !self.can_mint(domain, NO_GRANT) {
            Some(Status::LimitExhausted)
        } else {
            None
        }
    }

    /// The machine once the receiver holds a ticket for the invocation of the
    /// message `k`.
    pub open spec fn ticketed(self, domain: int, k: int) -> MachineModel {
        let i = self.messages[k].invocation;
        let invocation = self.invocations[i as int];
        self.minted(
            domain,
            NO_GRANT,
            ObjRef {
                kind: ObjKind::Invocation,
                index: i,
                generation: invocation.generation,
            },
            TICKET_RIGHTS,
            0,
            None,
            invocation.facet,
        )
    }

    /// The machine once the message `k` at the head of an endpoint's queue has
    /// been delivered.
    pub open spec fn delivered_to(self, domain: int, e: int, k: int) -> MachineModel {
        let i = self.messages[k].invocation as int;
        let held = self.ticketed(domain, k);
        held.with_queue(e, held.queues[e].drop_first()).with_endpoint(
            e,
            Endpoint {
                queued: one_less(held.endpoints[e].queued),
                reserved_used: if held.messages[k].reserved_cell {
                    one_less(held.endpoints[e].reserved_used)
                } else {
                    held.endpoints[e].reserved_used
                },
                delivered: one_more64(held.endpoints[e].delivered),
                ..held.endpoints[e]
            },
        ).with_invocation(
            i,
            Invocation {
                state: State::Delivered,
                message: NO_MESSAGE,
                receiver_domain: domain as u16,
                ..held.invocations[i]
            },
        ).with_message(
            k,
            Message { used: false, cap_count: 0, payload_len: 0, ..held.messages[k] },
        )
    }

    /// The message `k` as its receiver sees it: the header is what the kernel
    /// recorded at admission.
    pub open spec fn delivery(self, k: int) -> ReceiveResult {
        let message = self.messages[k];
        let invocation = self.invocations[message.invocation as int];
        ReceiveResult {
            header: MessageHeader {
                epoch: invocation.epoch,
                invocation_id: invocation.id,
                sender_domain_id: invocation.origin_domain_id,
                sender_scope_id: invocation.origin_scope_id,
                parent_invocation_id: invocation.parent_id,
                facet: invocation.facet,
                grant_id: self.grant_id(invocation.grant),
                sent_ns: invocation.admitted_ns,
                rights_transferred: self.rights_along(message.caps@, message.cap_count as int),
                cancel_state: invocation.cancel.abi_spec(),
                kind: message.kind,
                payload_len: message.payload_len,
            },
            cap_count: message.cap_count,
            caps: array_of(
                Seq::new(
                    MAX_MESSAGE_CAPS as nat,
                    |i: int|
                        if i < message.cap_count {
                            message.caps@[i].handle
                        } else {
                            0
                        },
                ),
            ),
            payload: message.payload,
        }
    }
}

/// Creates an endpoint charged to the addressed scope.
pub fn create_endpoint(machine: &mut Machine, ctx: &Ctx, request: &EndpointCreateRequest) -> (
    result: Result<u64, Status>)
    requires
        old(machine).wf(),
        ctx_ok(*ctx, ObjKind::Scope),
    ensures
        final(machine).wf(),
        final(machine).same_tables(*old(machine)),
        match old(machine)@.endpoint_fault(*ctx, *request) {
            Some(code) => {
                &&& result == Err::<u64, Status>(code)
                &&& final(machine)@ == old(machine)@
            },
            None => {
                &&& final(machine)@ == old(machine)@.endpoint_created(*ctx, *request)
                &&& result == Ok::<u64, Status>(old(machine)@.minted_handle(ctx.domain as int))
            },
        },
{
    if request.reserved0 != 0 || request.queue_capacity == 0 || request.queue_capacity
        > MAX_ENDPOINT_QUEUE {
        return Err(Status::InvalidArgument);
    }
    let sponsor: u16 = ctx.cap.object.index;
    if machine.scope(sponsor as usize).state != scope::State::Open {
        return Err(Status::ScopeClosed);
    }
    let mut i: usize = 0;
    while i < MAX_ENDPOINTS && machine.endpoint(i).used
        invariant
            machine.wf(),
            i <= MAX_ENDPOINTS,
            first_endpoint(machine@.endpoints, 0) == first_endpoint(machine@.endpoints, i as int),
        decreases MAX_ENDPOINTS - i,
    {
        i += 1;
    }
    if i == MAX_ENDPOINTS {
        return Err(Status::LimitExhausted);
    }
    let id: u64 = match claim(machine, ctx.domain, sponsor) {
        None => {
            return Err(Status::LimitExhausted);
        },
        Some(id) => id,
    };
    let generation: u32 = machine.endpoint(i).generation.saturating_add(1);
    machine.set_endpoint(
        i,
        Endpoint {
            used: true,
            open: true,
            generation,
            id,
            epoch: id,
            owner_scope: sponsor,
            capacity: request.queue_capacity,
            label: request.label,
            ..Endpoint::empty()
        },
    );
    let object = ObjRef { kind: ObjKind::Endpoint, index: i as u16, generation };
    match mint(
        machine,
        ctx.domain,
        NO_GRANT,
        object,
        ObjKind::Endpoint.rights_mask(),
        0,
        None,
        0,
    ) {
        Some(handle) => Ok(handle),
        None => Err(Status::LimitExhausted),
    }
}

/// Mints a send capability bound to one logical object of the service.
///
/// The facet is assigned by the kernel, never by the caller: a facet that can be
/// reused inside an epoch is not an identity a server can resolve against.
pub fn bind_facet(machine: &mut Machine, ctx: &Ctx, request: &BindFacetRequest) -> (result: Result<
    u64,
    Status,
>)
    requires
        old(machine).wf(),
        ctx_ok(*ctx, ObjKind::Endpoint),
    ensures
        final(machine).wf(),
        final(machine).same_tables(*old(machine)),
        match old(machine)@.facet_fault(*ctx, *request) {
            Some(code) => {
                &&& result == Err::<u64, Status>(code)
                &&& final(machine)@ == old(machine)@
            },
            None => {
                &&& final(machine)@ == old(machine)@.facet_bound(*ctx, *request)
                &&& result == Ok::<u64, Status>(old(machine)@.minted_handle(ctx.domain as int))
            },
        },
{
    if request.reserved0 != 0 || request.facet != 0 {
        return Err(Status::InvalidArgument);
    }
    if request.rights_mask & !ctx.cap.rights != 0 {
        return Err(Status::InsufficientRights);
    }
    if request.rights_mask & !ObjKind::Endpoint.rights_mask() != 0 {
        return Err(Status::InvalidArgument);
    }
    let e: usize = ctx.cap.object.index as usize;
    let parent = machine.grant(ctx.cap.grant as usize);
    let deadline: u64 = match narrow_deadline(parent.deadline_ns, request.deadline_ns) {
        None => {
            return Err(Status::InvalidArgument);
        },
        Some(deadline) => deadline,
    };
    let endpoint = machine.endpoint(e);
    if endpoint.next_facet == u64::MAX || !can_mint(machine, ctx.domain, ctx.cap.grant) {
        return Err(Status::LimitExhausted);
    }
    let facet: u64 = endpoint.next_facet;
    machine.set_endpoint(
        e,
        Endpoint {
            next_facet: facet + 1,
            facets: endpoint.facets.saturating_add(1),
            ..endpoint
        },
    );
    match mint(
        machine,
        ctx.domain,
        ctx.cap.grant,
        ctx.cap.object,
        request.rights_mask,
        deadline,
        parent.life_scope,
        facet,
    ) {
        Some(handle) => Ok(handle),
        None => Err(Status::LimitExhausted),
    }
}

/// Admits a message without waiting for a reply.
pub fn send(machine: &mut Machine, ctx: &Ctx, request: &SendRequest) -> (result: Result<
    u64,
    Status,
>)
    requires
        old(machine).wf(),
        ctx_ok(*ctx, ObjKind::Endpoint),
    ensures
        final(machine).wf(),
        final(machine).same_tables(*old(machine)),
        match old(machine)@.admission_fault(*ctx, *request, message_kind::REQUEST) {
            Some(code) => {
                &&& result == Err::<u64, Status>(code)
                &&& final(machine)@ == old(machine)@
            },
            None => {
                &&& final(machine)@ == old(machine)@.admitted(
                    *ctx,
                    *request,
                    message_kind::REQUEST,
                    None,
                )
                &&& result == Ok::<u64, Status>(old(machine)@.next_id)
            },
        },
{
    match admit_message(machine, ctx, request, message_kind::REQUEST, None) {
        Ok(admitted) => Ok(admitted.id),
        Err(code) => Err(code),
    }
}

/// Every right that the capabilities of a message carry.
fn rights_along(machine: &Machine, caps: &[DeliveredCap; MAX_MESSAGE_CAPS], count: usize) -> (
    rights: u32)
    requires
        machine.wf(),
        count <= MAX_MESSAGE_CAPS,
        forall|i: int| 0 <= i < count ==> grant_ref_ok((#[trigger] caps@[i]).grant),
    ensures
        rights == machine@.rights_along(caps@, count as int),
{
    let mut rights: u32 = 0;
    for i in 0..count
        invariant
            machine.wf(),
            count <= MAX_MESSAGE_CAPS,
            forall|i: int| 0 <= i < count ==> grant_ref_ok((#[trigger] caps@[i]).grant),
            rights == machine@.rights_along(caps@, i as int),
    {
        let grant: u16 = caps[i].grant;
        if grant != NO_GRANT {
            rights = rights | machine.grant(grant as usize).rights;
        }
    }
    rights
}

/// Lays a message out as its receiver sees it.
fn lay_out(machine: &Machine, k: usize) -> (result: ReceiveResult)
    requires
        machine.wf(),
        k < MAX_MESSAGES,
    ensures
        result == machine@.delivery(k as int),
{
    let message = machine.message(k);
    let invocation = machine.invocation(message.invocation as usize);
    let count: usize = message.cap_count as usize;
    let mut caps: [u64; MAX_MESSAGE_CAPS] = [0; MAX_MESSAGE_CAPS];
    for i in 0..count
        invariant
            count <= MAX_MESSAGE_CAPS,
            forall|j: int|
                0 <= j < MAX_MESSAGE_CAPS ==> #[trigger] caps@[j] == if j < i {
                    message.caps@[j].handle
                } else {
                    0
                },
    {
        caps[i] = message.caps[i].handle;
    }
    proof {
        assert(caps@ =~= Seq::new(
            MAX_MESSAGE_CAPS as nat,
            |i: int|
                if i < message.cap_count {
                    message.caps@[i].handle
                } else {
                    0
                },
        ));
        array_of_elements(caps);
    }
    ReceiveResult {
        header: MessageHeader {
            epoch: invocation.epoch,
            invocation_id: invocation.id,
            sender_domain_id: invocation.origin_domain_id,
            sender_scope_id: invocation.origin_scope_id,
            parent_invocation_id: invocation.parent_id,
            facet: invocation.facet,
            grant_id: grant_id(machine, invocation.grant),
            sent_ns: invocation.admitted_ns,
            rights_transferred: rights_along(machine, &message.caps, count),
            cancel_state: invocation.cancel.abi(),
            kind: message.kind,
            payload_len: message.payload_len,
        },
        cap_count: message.cap_count,
        caps,
        payload: message.payload,
    }
}

/// Identity of a grant, or zero for none.
pub fn grant_id(machine: &Machine, grant: u16) -> (id: u64)
    requires
        machine.wf(),
        grant_ref_ok(grant),
    ensures
        id == machine@.grant_id(grant),
{
    if grant == NO_GRANT {
        0
    } else {
        machine.grant(grant as usize).id
    }
}

/// Takes the message at the head of an endpoint's queue for a domain, and
/// returns the receiver's ticket and the message as the receiver sees it.
///
/// The receiver needs a handle on the obligation before the message leaves the
/// queue: if its table is full the message stays where it was.
pub fn deliver(machine: &mut Machine, domain: usize, e: usize, k: usize) -> (result: Result<
    (u64, ReceiveResult),
    Status,
>)
    requires
        old(machine).wf(),
        domain < MAX_DOMAINS,
        e < MAX_ENDPOINTS,
        k < MAX_MESSAGES,
        old(machine)@.queues[e as int].len() > 0,
        old(machine)@.queues[e as int][0] == k,
    ensures
        final(machine).wf(),
        final(machine).same_tables(*old(machine)),
        match old(machine)@.delivery_fault(domain as int, e as int, k as int) {
            Some(code) => {
                &&& result == Err::<(u64, ReceiveResult), Status>(code)
                &&& final(machine)@ == old(machine)@
            },
            None => {
                &&& final(machine)@ == old(machine)@.delivered_to(
                    domain as int,
                    e as int,
                    k as int,
                )
                &&& result == Ok::<(u64, ReceiveResult), Status>(
                    (
                        old(machine)@.minted_handle(domain as int),
                        old(machine)@.ticketed(domain as int, k as int).delivery(k as int),
                    ),
                )
            },
        },
{
    let message = machine.message(k);
    let i: usize = message.invocation as usize;
    let invocation = machine.invocation(i);
    // A queue and an invocation that have drifted apart would make the header
    // wrong about where the work came from.
    if invocation.endpoint as usize != e || invocation.endpoint_generation != machine.endpoint(
        e,
    ).generation {
        return Err(Status::StateConflict);
    }
    let object = ObjRef {
        kind: ObjKind::Invocation,
        index: message.invocation,
        generation: invocation.generation,
    };
    let ticket: u64 = match mint(
        machine,
        domain,
        NO_GRANT,
        object,
        TICKET_RIGHTS,
        0,
        None,
        invocation.facet,
    ) {
        None => {
            return Err(Status::LimitExhausted);
        },
        Some(ticket) => ticket,
    };
    let result = lay_out(machine, k);
    // Dequeue only now that the delivery is certain.
    machine.pop_queue(e);
    let endpoint = machine.endpoint(e);
    let message = machine.message(k);
    machine.set_endpoint(
        e,
        Endpoint {
            queued: endpoint.queued.saturating_sub(1),
            reserved_used: if message.reserved_cell {
                endpoint.reserved_used.saturating_sub(1)
            } else {
                endpoint.reserved_used
            },
            delivered: endpoint.delivered.saturating_add(1),
            ..endpoint
        },
    );
    let invocation = machine.invocation(i);
    machine.set_invocation(
        i,
        Invocation {
            state: State::Delivered,
            message: NO_MESSAGE,
            receiver_domain: domain as u16,
            ..invocation
        },
    );
    machine.set_message(
        k,
        Message { used: false, cap_count: 0, payload_len: 0, ..message },
    );
    Ok((ticket, result))
}

} // verus!
