//! What holds across operations: what is sent arrives, what is written is
//! read, a release undoes an installation, authority only narrows, a refusal
//! changes nothing, and a mapping stays in its domain.

use vstd::prelude::*;

use crate::abi::request::{BindFacetRequest, InstallCapRequest, MapRequest, SendRequest};
use crate::abi::{cap_op, handle_round_trip, slot_of};
use crate::api::capops::free_node_is_unused;
use crate::api::closing::releasing_keeps_messages;
use crate::api::devops::TableEntry;
use crate::api::dispatch::{
    invoked, is_closing, is_waiting, settled, Answer, Call, Host, Invoked, Staging,
};
use crate::api::domainops::is_copy;
use crate::api::memops::{copied, platform_rights};
use crate::api::{ctx_ok, stepped, Ctx};
use crate::bytes::array_of_elements;
use crate::domain::reaping;
use crate::limits::{
    MAX_CAPS, MAX_DERIVE_DEPTH, MAX_DOMAINS, MAX_INLINE_PAYLOAD, MAX_SCOPES, MAX_THREADS,
};
use crate::mm::{Frame, Rights};
use crate::obj::{
    cap_at, cap_lookup, first_free, with_cap, without_cap, CapEntry, ObjKind, ObjRef, NO_GRANT,
};
use crate::scope::{
    charged, charged_keeps_tree, release_undoes_reserve, released, scopes_wf, within_same_tree,
    Resource, Scope,
};
use crate::spaces::with_run;
use crate::state::{grant_ref_ok, ref_ok, Machine, MachineModel, WakeHint};

verus! {

proof fn placing_keeps_messages(
    m: MachineModel,
    source: Seq<CapEntry>,
    giver: int,
    caps: Seq<u64>,
    receiver: int,
    n: nat,
)
    ensures
        ({
            let after = m.placed(source, giver, caps, receiver, n);
            &&& after.queues == m.queues
            &&& after.messages == m.messages
        }),
    decreases n,
{
    if n > 0 {
        placing_keeps_messages(m, source, giver, caps, receiver, (n - 1) as nat);
        let before = m.placed(source, giver, caps, receiver, (n - 1) as nat);
        let entry = cap_lookup(source, giver, caps[n - 1])->0;
        let after = before.install(
            receiver,
            before.slot_for(receiver, None),
            entry.object,
            entry.grant,
        );
        assert(after.queues == before.queues);
    }
}

proof fn giving_up_keeps_messages(
    m: MachineModel,
    giver: int,
    caps: Seq<u64>,
    ops: Seq<u32>,
    n: nat,
)
    ensures
        ({
            let after = m.given_up(giver, caps, ops, n);
            &&& after.queues == m.queues
            &&& after.messages == m.messages
        }),
    decreases n,
{
    if n > 0 {
        giving_up_keeps_messages(m, giver, caps, ops, (n - 1) as nat);
        if ops[n - 1] == cap_op::MOVE {
            let before = m.given_up(giver, caps, ops, (n - 1) as nat);
            let slot = crate::abi::slot_of(caps[n - 1]) as int;
            releasing_keeps_messages(before, giver, slot);
        }
    }
}

proof fn waking_keeps_messages(m: MachineModel, e: int, hint: WakeHint, t: int)
    requires
        0 <= t,
    ensures
        m.wake_receiver(e, hint, t).queues == m.queues,
        m.wake_receiver(e, hint, t).messages == m.messages,
    decreases MAX_THREADS - t,
{
    if t < MAX_THREADS {
        if !m.endpoints[e].receivers@[t] {
            waking_keeps_messages(m, e, hint, t + 1);
        } else {
            let wait = crate::state::Wait::Receive(e as u16, m.endpoints[e].generation);
            let after = m.wake_waiting(
                t,
                wait,
                crate::abi::status::Status::Success,
                hint,
            ).unlisted(e, t);
            waking_keeps_messages(after, e, hint, t + 1);
        }
    }
}

/// A message that was admitted stands behind all others of its endpoint, and
/// what its receiver will read is what was sent: the bytes of the payload, and
/// zeros behind them.
pub proof fn message_arrives_as_sent(
    m: MachineModel,
    ctx: Ctx,
    request: SendRequest,
    kind: u32,
    waiter: Option<u16>,
    sent: [u8; MAX_INLINE_PAYLOAD],
)
    requires
        m.wf(),
        ctx_ok(ctx, ObjKind::Endpoint),
        m.admission_fault(ctx, request, kind) is None,
        0 <= m.free_message() < m.messages.len(),
        forall|i: int|
            0 <= i < MAX_INLINE_PAYLOAD ==> #[trigger] sent@[i] == if i < request.payload_len {
                request.payload@[i]
            } else {
                0
            },
    ensures
        ({
            let e = ctx.cap.object.index as int;
            let k = m.free_message();
            let after = m.admitted(ctx, request, kind, waiter);
            &&& after.queues[e] == m.queues[e].push(k as u16)
            &&& after.delivery(k).payload == sent
            &&& after.delivery(k).header.payload_len == request.payload_len
            &&& after.delivery(k).header.kind == kind
            &&& after.delivery(k).cap_count == request.cap_count
        }),
{
    let e = ctx.cap.object.index as int;
    let k = m.free_message();
    let i = m.free_invocation();
    let receiver = m.endpoints[e].receiver_domain as int;
    let paid = m.paid_for(ctx, request, kind);
    placing_keeps_messages(
        paid,
        m.caps,
        ctx.domain as int,
        request.caps@,
        receiver,
        request.cap_count as nat,
    );
    giving_up_keeps_messages(
        paid.placed(
            m.caps,
            ctx.domain as int,
            request.caps@,
            receiver,
            request.cap_count as nat,
        ),
        ctx.domain as int,
        request.caps@,
        request.cap_ops@,
        request.cap_count as nat,
    );
    let ready = m.prepared(ctx, request, kind);
    assert(ready.queues == m.queues && ready.messages == m.messages);
    assert forall|x: MachineModel, hint: WakeHint|
        (#[trigger] x.wake_receiver(e, hint, 0)).queues == x.queues && x.wake_receiver(
            e,
            hint,
            0,
        ).messages == x.messages by {
        waking_keeps_messages(x, e, hint, 0);
    }
    let padded = Seq::new(
        MAX_INLINE_PAYLOAD as nat,
        |i: int|
            if i < request.payload_len {
                request.payload@[i]
            } else {
                0
            },
    );
    assert(padded =~= sent@);
    array_of_elements(sent);
}

/// What was written to a range is what is read from it, and nothing outside the
/// range changed.
pub proof fn written_bytes_are_read(
    source: Seq<u8>,
    from: int,
    target: Seq<u8>,
    to: int,
    length: int,
)
    requires
        0 <= from,
        0 <= to,
        0 <= length,
        from + length <= source.len(),
        to + length <= target.len(),
    ensures
        ({
            let after = copied(source, from, target, to, length);
            &&& after.len() == target.len()
            &&& after.subrange(to, to + length) == source.subrange(from, from + length)
            &&& after.take(to) == target.take(to)
            &&& after.skip(to + length) == target.skip(to + length)
        }),
{
    let after = copied(source, from, target, to, length);
    assert(after.subrange(to, to + length) =~= source.subrange(from, from + length));
    assert(after.take(to) =~= target.take(to));
    assert(after.skip(to + length) =~= target.skip(to + length));
}

/// Binding a facet only narrows: the child has no right the capability lacks,
/// expires no later than its parent, and names the same endpoint under a facet
/// that no earlier binding was given.
pub proof fn facet_only_narrows(m: MachineModel, ctx: Ctx, request: BindFacetRequest)
    requires
        m.sized(),
        ctx_ok(ctx, ObjKind::Endpoint),
        m.facet_fault(ctx, request) is None,
        m.grants[ctx.cap.grant as int].used,
    ensures
        ({
            let e = ctx.cap.object.index as int;
            let parent = m.grants[ctx.cap.grant as int];
            let after = m.facet_bound(ctx, request);
            let child = after.grants[m.next_grant()];
            &&& child.rights & !ctx.cap.rights == 0
            &&& child.object == ctx.cap.object
            &&& child.parent == ctx.cap.grant
            &&& child.facet == m.endpoints[e].next_facet
            &&& child.facet < after.endpoints[e].next_facet
            &&& parent.deadline_ns != 0 ==> 0 < child.deadline_ns <= parent.deadline_ns
        }),
{
    free_node_is_unused(m);
}

/// Installing a capability in a domain under construction only narrows: what
/// the domain gets has no right its source lacks, expires no later, and names
/// the same object.
pub proof fn installing_only_narrows(m: MachineModel, ctx: Ctx, request: InstallCapRequest)
    requires
        m.sized(),
        ctx_ok(ctx, ObjKind::Domain),
        m.install_fault(ctx, request) is None,
        m.grants[(m.install_source(ctx, request)->Ok_0).grant as int].used,
    ensures
        ({
            let source = m.install_source(ctx, request)->Ok_0;
            let parent = m.grants[source.grant as int];
            let after = m.cap_installed(ctx, request);
            let cell = after.caps[cap_at(
                ctx.cap.object.index as int,
                request.target_slot as int,
            )];
            let given = after.grants[cell.grant as int];
            &&& cell.object == source.object
            &&& given.rights & !parent.rights == 0
            &&& given.facet == parent.facet
            &&& parent.deadline_ns != 0 ==> 0 < given.deadline_ns <= parent.deadline_ns
        }),
{
    let source = m.install_source(ctx, request)->Ok_0;
    let rights = m.grants[source.grant as int].rights;
    assert(rights & !rights == 0) by (bit_vector);
    if !is_copy(request) {
        free_node_is_unused(m);
    }
}

/// An entry without the authority its operation needs changes nothing but the
/// count of refusals, what waited to be reclaimed apart, and nothing is written
/// back to its caller.
pub proof fn unauthorised_entries_change_nothing(
    before: Machine,
    ready: Machine,
    acted: Machine,
    quiet: Machine,
    after: Machine,
    call: Call,
    host: Host,
    staged: Staging,
    left: Staging,
    answer: Answer,
    outcome: (Invoked, Option<TableEntry>),
)
    requires
        invoked(before, ready, acted, quiet, after, call, host, staged, left, answer, outcome),
        !is_waiting(call.operation()),
        ready@.authority(call.domain as int, call.entry, call.now) is Err,
    ensures
        if is_closing(call.operation()) {
            reaping(before@, ready@)
        } else {
            ready == before
        },
        settled(ready, quiet, call.operation()),
        after@ == quiet@.refusal_noted(call.domain as int),
        left == staged,
        outcome.0 is Refused,
{
}

/// A mapping made for one domain changes no translation of another.
pub proof fn mapping_stays_in_its_domain(
    machine: Machine,
    ctx: Ctx,
    request: MapRequest,
    other: int,
    v: u64,
)
    requires
        machine.wf(),
        ctx_ok(ctx, ObjKind::Domain),
        machine@.map_fault(ctx, request) is None,
        machine@.domains[ctx.cap.object.index as int].space is Some,
        0 <= other < MAX_DOMAINS,
        other != ctx.cap.object.index,
    ensures
        machine@.map_made(ctx, request).translated(other, v) == machine@.translated(other, v),
{
    reveal(Machine::wf_but);
    let m = machine@;
    let d = ctx.cap.object.index as int;
    if m.domains[other].space is Some {
        assert(machine.domains@[d].space != machine.domains@[other].space);
        run_stays_in_its_space(
            m.pages,
            m.root_of(d),
            request.vaddr,
            m.map_base(ctx, request),
            platform_rights(request.rights)->Ok_0,
            request.page_count as nat,
            m.root_of(other),
            v,
        );
    }
}

proof fn run_stays_in_its_space(
    pages: Map<(int, u64), (nat, u64)>,
    root: int,
    vaddr: u64,
    base: Frame,
    rights: Rights,
    n: nat,
    other: int,
    v: u64,
)
    requires
        other != root,
    ensures
        ({
            let after = with_run(pages, root, vaddr, base, rights, n);
            &&& after.contains_key((other, v)) == pages.contains_key((other, v))
            &&& pages.contains_key((other, v)) ==> after[(other, v)] == pages[(other, v)]
        }),
    decreases n,
{
    if n > 0 {
        run_stays_in_its_space(pages, root, vaddr, base, rights, (n - 1) as nat, other, v);
    }
}

/// Giving back what was charged to a scope does not depend on how many
/// capabilities name the scopes.
proof fn releasing_ignores_refs(a: Seq<Scope>, b: Seq<Scope>, i: int, s: int, k: int)
    requires
        scopes_wf(a),
        0 <= i < MAX_SCOPES,
        0 <= s < MAX_SCOPES,
        0 <= k < MAX_SCOPES,
        b == a.update(i, Scope { refs: b[i].refs, ..a[i] }),
    ensures
        released(b, s, Resource::Metadata, 1)[k].metadata == released(
            a,
            s,
            Resource::Metadata,
            1,
        )[k].metadata,
        released(b, s, Resource::Metadata, 1)[k].refs == b[k].refs,
{
    within_same_tree(a, b, k, s);
}

/// The machine once a capability was installed and its slot released again,
/// before anything is collected.
pub open spec fn uninstalled(m: MachineModel, domain: int, slot: int, o: ObjRef, g: u16) -> MachineModel {
    let held = m.install(domain, slot, o, g);
    (MachineModel { caps: without_cap(held.caps, domain, slot), ..held }).uncharge(
        held.domains[domain].owner_scope,
        Resource::Metadata,
        1,
    ).count_grant(g, false).count_ref(o, false)
}

#[verifier::spinoff_prover]
proof fn uninstalling_restores_counts(m: MachineModel, domain: int, slot: int, o: ObjRef, g: u16, k: int)
    requires
        m.wf(),
        0 <= domain < MAX_DOMAINS,
        0 <= slot < MAX_CAPS,
        0 <= k < MAX_SCOPES,
        ref_ok(o),
        grant_ref_ok(g),
        m.affords(m.domains[domain].owner_scope, Resource::Metadata, 1),
        m.refs_of(o) < u32::MAX,
        g != NO_GRANT ==> m.grants[g as int].refs < u32::MAX,
    ensures
        uninstalled(m, domain, slot, o, g).refs_of(o) == m.refs_of(o),
        uninstalled(m, domain, slot, o, g).scopes[k].metadata == m.scopes[k].metadata,
        g != NO_GRANT ==> uninstalled(m, domain, slot, o, g).grants[g as int] == m.grants[g as int],
{
    let owner = m.domains[domain].owner_scope as int;
    let i = o.index as int;
    let paid = charged(m.scopes, owner, Resource::Metadata, 1);
    let held = m.install(domain, slot, o, g);
    release_undoes_reserve(m.scopes, owner, Resource::Metadata, 1);
    charged_keeps_tree(m.scopes, owner, Resource::Metadata, 1);
    match o.kind {
        ObjKind::Scope => {
            assert(held.scopes == paid.update(
                i,
                Scope { refs: stepped(paid[i].refs, true), ..paid[i] },
            ));
            releasing_ignores_refs(paid, held.scopes, i, owner, k);
            releasing_ignores_refs(paid, held.scopes, i, owner, i);
            assert(paid[i].refs == m.scopes[i].refs);
        },
        ObjKind::Domain => {
            assert(held.scopes == paid);
        },
        _ => {
            assert(held.scopes == paid);
        },
    }
}

/// Releasing a capability right after it was installed undoes the installation:
/// the grant and the object are held as often as before, and no scope pays for
/// the slot. The handle names nothing any more.
pub proof fn release_undoes_install(m: MachineModel, domain: int, o: ObjRef, g: u16, k: int)
    requires
        m.wf(),
        0 <= domain < MAX_DOMAINS,
        0 <= k < MAX_SCOPES,
        ref_ok(o),
        grant_ref_ok(g),
        m.can_install(domain, None),
        0 < m.refs_of(o) < u32::MAX,
        g != NO_GRANT ==> 0 < m.grants[g as int].refs < u32::MAX,
    ensures
        ({
            let slot = m.slot_for(domain, None);
            let handle = m.fresh_handle(domain, slot);
            let held = m.install(domain, slot, o, g);
            let last = held.release_slot(domain, slot_of(handle) as int);
            &&& cap_lookup(held.caps, domain, handle) is Some
            &&& cap_lookup(last.caps, domain, handle) is None
            &&& last.refs_of(o) == m.refs_of(o)
            &&& last.scopes[k].metadata == m.scopes[k].metadata
            &&& g != NO_GRANT ==> last.grants[g as int] == m.grants[g as int]
        }),
{
    let slot = m.slot_for(domain, None);
    first_free_is_free(m.caps, domain, 0);
    let at = cap_at(domain, slot);
    handle_round_trip(slot as u32, (m.caps[at].generation + 1) as u32);
    let held = m.install(domain, slot, o, g);
    assert(held.caps == with_cap(m.caps, domain, slot, o, g));
    let bare = uninstalled(m, domain, slot, o, g);
    uninstalling_restores_counts(m, domain, slot, o, g, k);
    assert(bare.caps == without_cap(held.caps, domain, slot));
    held_is_not_collected(bare, o, g);
    assert(held.release_slot(domain, slot) == bare);
}

/// What something still names is not collected.
proof fn held_is_not_collected(m: MachineModel, o: ObjRef, g: u16)
    requires
        0 < m.refs_of(o),
        g != NO_GRANT ==> 0 < m.grants[g as int].refs,
    ensures
        o.kind == ObjKind::Invocation ==> m.collect_invocation(o.index as int) == m,
        o.kind == ObjKind::Memory ==> m.collect_memory(o.index as int, false) == m,
        m.collect_grant(g, MAX_DERIVE_DEPTH as nat) == m,
{
}

proof fn first_free_is_free(caps: Seq<CapEntry>, domain: int, from: int)
    requires
        0 <= from,
    ensures
        first_free(caps, domain, from) < MAX_CAPS ==> {
            &&& from <= first_free(caps, domain, from)
            &&& caps[cap_at(domain, first_free(caps, domain, from))].is_free()
        },
    decreases MAX_CAPS - from,
{
    if from < MAX_CAPS && !caps[cap_at(domain, from)].is_free() {
        first_free_is_free(caps, domain, from + 1);
    }
}

} // verus!
