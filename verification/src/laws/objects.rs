//! New objects: what a scope pays for is what was asked for, and its creator holds
//! it.

use vstd::prelude::*;

use crate::abi::request::{BindFacetRequest, EndpointCreateRequest, TimerCreateRequest};
use crate::abi::{object_type, right};
use crate::api::evtops::{first_signal, first_timer};
use crate::api::ipcops::first_endpoint;
use crate::api::{ctx_ok, Ctx};
use crate::events::{Signal, Timer};
use crate::ipc::{Endpoint, NO_DOMAIN};
use crate::laws::authority::{
    a_handle_permits_what_its_entry_says, a_new_capability_is_what_was_asked_for, names_entry,
};
use crate::limits::{
    MAX_CAPS, MAX_DOMAINS, MAX_ENDPOINTS, MAX_ENDPOINT_QUEUE, MAX_SCOPES, MAX_SIGNALS, MAX_TIMERS,
};
use crate::obj::{CapEntry, ObjKind, ObjRef, NO_GRANT};
use crate::scope::State as ScopeState;
use crate::state::MachineModel;

verus! {

/// A domain holds a new capability for an object under a handle, in a slot that was
/// free, with exactly some rights and nothing above it.
pub open spec fn holds_new(
    m: MachineModel,
    after: MachineModel,
    domain: int,
    handle: u64,
    object: ObjRef,
    rights: u32,
) -> bool {
    let at = domain * MAX_CAPS + handle as int % 0x1_0000_0000;
    let entry = after.caps[at];
    let grant = after.grants[entry.grant as int];
    &&& handle as int % 0x1_0000_0000 < MAX_CAPS
    &&& !m.caps[at].live
    &&& entry.live
    &&& entry.generation == handle as int / 0x1_0000_0000
    &&& entry.object == object
    &&& grant.used
    &&& grant.object == object
    &&& grant.rights == rights
    &&& grant.parent == NO_GRANT
    &&& grant.deadline_ns == 0
    &&& grant.life_scope is None
    &&& !grant.fenced
    &&& forall|k: int| 0 <= k < m.caps.len() && k != at ==> #[trigger] after.caps[k] == m.caps[k]
}

/// Who creates an object holds it: in a slot of its own table that was free, with
/// every right that was meant for it.
proof fn creators_hold(m: MachineModel, made: MachineModel, sponsor: u16, domain: int, o: ObjRef, rights: u32)
    requires
        m.wf(),
        made.wf(),
        0 <= domain < MAX_DOMAINS,
        sponsor < MAX_SCOPES,
        m.can_create(sponsor, domain),
        made.caps == m.caps,
        made.grants == m.grants,
        made.grant_hint == m.grant_hint,
        made.next_id == m.next_id + 1,
        made.scopes == m.claimed(sponsor).scopes,
        made.domains == m.domains,
    ensures
        holds_new(m, made.owned(domain, o, rights), domain, m.minted_handle(domain), o, rights),
{
    assert(made.can_mint(domain, NO_GRANT)) by {
        let paid = m.claimed(sponsor);
        assert(paid.can_mint(domain, NO_GRANT));
        assert(made.slot_for(domain, None) == paid.slot_for(domain, None));
        assert(made.next_grant() == paid.next_grant());
        assert(made.can_grant(made.domains[domain].owner_scope, NO_GRANT) == paid.can_grant(
            paid.domains[domain].owner_scope,
            NO_GRANT,
        ));
    }
    a_new_capability_is_what_was_asked_for(made, domain, NO_GRANT, o, rights, 0, None, 0);
    assert(made.minted_handle(domain) == m.minted_handle(domain));
}

proof fn claiming_keeps_wf(m: MachineModel, sponsor: u16)
    requires
        m.wf(),
        sponsor < MAX_SCOPES,
    ensures
        m.claimed(sponsor).wf(),
{
    crate::scope::charged_keeps_tree(
        m.scopes,
        sponsor as int,
        crate::scope::Resource::Metadata,
        1,
    );
    let after = m.claimed(sponsor).scopes;
    assert forall|i: int| 0 <= i < after.len() implies match #[trigger] after[i].parent {
        Some(p) => {
            &&& p < MAX_SCOPES
            &&& after[i].depth == after[p as int].depth + 1
            &&& after[p as int].state != ScopeState::Empty
        },
        None => after[i].depth == 0,
    } by {
        assert(m.scopes[i].parent == after[i].parent);
        if let Some(p) = m.scopes[i].parent {
            assert(after[p as int].state == m.scopes[p as int].state);
        }
    }
}

/// A new signal has nothing pending, takes a record that was free, and its creator
/// holds every right to it.
pub proof fn a_new_signal_is_quiet(m: MachineModel, ctx: Ctx)
    requires
        m.wf(),
        ctx_ok(ctx, ObjKind::Scope),
        m.signal_fault(ctx) is None,
    ensures
        ({
            let after = m.signal_created(ctx);
            exists|i: int|
                {
                    let made = #[trigger] after.signals[i];
                    &&& 0 <= i < MAX_SIGNALS
                    &&& !m.signals[i].used
                    &&& made.used
                    &&& made.bits == 0
                    &&& made.sequence == 0
                    &&& made.id == m.next_id
                    &&& made.owner_scope == ctx.cap.object.index
                    &&& made.refs == 1
                    &&& holds_new(
                        m,
                        after,
                        ctx.domain as int,
                        m.minted_handle(ctx.domain as int),
                        ObjRef {
                            kind: ObjKind::Signal,
                            index: i as u16,
                            generation: made.generation,
                        },
                        ObjKind::Signal.mask_spec(),
                    )
                    &&& forall|k: int|
                        0 <= k < MAX_SIGNALS && k != i ==> #[trigger] after.signals[k]
                            == m.signals[k]
                }
        }),
{
    let sponsor = ctx.cap.object.index;
    let i = first_signal(m.signals, 0);
    signal_is_free(m.signals, 0);
    claiming_keeps_wf(m, sponsor);
    let generation = crate::ctrl::one_more(m.signals[i].generation);
    let made = m.claimed(sponsor).with_signal(
        i,
        Signal {
            used: true,
            generation,
            id: m.next_id,
            owner_scope: sponsor,
            ..Signal::empty_spec()
        },
    );
    assert(made.wf());
    let o = ObjRef { kind: ObjKind::Signal, index: i as u16, generation };
    creators_hold(m, made, sponsor, ctx.domain as int, o, ObjKind::Signal.mask_spec());
    let after = m.signal_created(ctx);
    assert(after.signals[i].used);
}

proof fn signal_is_free(signals: Seq<Signal>, from: int)
    requires
        0 <= from <= MAX_SIGNALS,
    ensures
        ({
            let i = first_signal(signals, from);
            &&& from <= i <= MAX_SIGNALS
            &&& i < MAX_SIGNALS ==> !signals[i].used
        }),
    decreases MAX_SIGNALS - from,
{
    if from < MAX_SIGNALS && signals[from].used {
        signal_is_free(signals, from + 1);
    }
}

/// A new timer is not armed, and is bound to the signal that the request's handle
/// may raise and to the bits it names.
pub proof fn a_new_timer_is_bound_and_not_armed(
    m: MachineModel,
    ctx: Ctx,
    request: TimerCreateRequest,
)
    requires
        m.wf(),
        ctx_ok(ctx, ObjKind::Scope),
        m.timer_fault(ctx, request) is None,
    ensures
        ({
            let after = m.timer_created(ctx, request);
            exists|i: int, entry: CapEntry|
                {
                    let made = #[trigger] after.timers[i];
                    &&& #[trigger] names_entry(
                        m,
                        ctx.domain as int,
                        request.signal_handle,
                        object_type::SIGNAL,
                        right::SIGNAL_RAISE,
                        ctx.now,
                        entry,
                    )
                    &&& 0 <= i < MAX_TIMERS
                    &&& !m.timers[i].used
                    &&& made.used
                    &&& !made.armed
                    &&& made.fired == 0
                    &&& made.signal == entry.object.index
                    &&& made.signal_generation == entry.object.generation
                    &&& made.bits == request.bits
                    &&& request.bits != 0
                    &&& made.id == m.next_id
                    &&& made.owner_scope == ctx.cap.object.index
                    &&& holds_new(
                        m,
                        after,
                        ctx.domain as int,
                        m.minted_handle(ctx.domain as int),
                        ObjRef {
                            kind: ObjKind::Timer,
                            index: i as u16,
                            generation: made.generation,
                        },
                        ObjKind::Timer.mask_spec(),
                    )
                    &&& forall|k: int|
                        0 <= k < MAX_TIMERS && k != i ==> #[trigger] after.timers[k] == m.timers[k]
                }
        }),
{
    let sponsor = ctx.cap.object.index;
    let i = first_timer(m.timers, 0);
    timer_is_free(m.timers, 0);
    claiming_keeps_wf(m, sponsor);
    a_handle_permits_what_its_entry_says(
        m,
        ctx.domain as int,
        request.signal_handle,
        object_type::SIGNAL,
        right::SIGNAL_RAISE,
        ctx.now,
    );
    let signal = m.timer_signal(ctx, request)->Ok_0;
    let entry = choose|entry: CapEntry|
        {
            &&& #[trigger] names_entry(
                m,
                ctx.domain as int,
                request.signal_handle,
                object_type::SIGNAL,
                right::SIGNAL_RAISE,
                ctx.now,
                entry,
            )
            &&& signal == entry.object
        };
    let generation = crate::ctrl::one_more(m.timers[i].generation);
    let made = m.claimed(sponsor).with_timer(
        i,
        Timer {
            used: true,
            generation,
            id: m.next_id,
            owner_scope: sponsor,
            signal: signal.index,
            signal_generation: signal.generation,
            bits: request.bits,
            ..Timer::empty_spec()
        },
    );
    assert(made.wf());
    let o = ObjRef { kind: ObjKind::Timer, index: i as u16, generation };
    creators_hold(m, made, sponsor, ctx.domain as int, o, ObjKind::Timer.mask_spec());
    let after = m.timer_created(ctx, request);
    assert(after.timers[i].used);
}

proof fn timer_is_free(timers: Seq<Timer>, from: int)
    requires
        0 <= from <= MAX_TIMERS,
    ensures
        ({
            let i = first_timer(timers, from);
            &&& from <= i <= MAX_TIMERS
            &&& i < MAX_TIMERS ==> !timers[i].used
        }),
    decreases MAX_TIMERS - from,
{
    if from < MAX_TIMERS && timers[from].used {
        timer_is_free(timers, from + 1);
    }
}

/// A new endpoint is open, empty and has no receiver yet; it queues as many messages
/// as were asked for.
pub proof fn a_new_endpoint_is_empty(m: MachineModel, ctx: Ctx, request: EndpointCreateRequest)
    requires
        m.wf(),
        ctx_ok(ctx, ObjKind::Scope),
        m.endpoint_fault(ctx, request) is None,
    ensures
        ({
            let after = m.endpoint_created(ctx, request);
            exists|i: int|
                {
                    let made = #[trigger] after.endpoints[i];
                    &&& 0 <= i < MAX_ENDPOINTS
                    &&& !m.endpoints[i].used
                    &&& made.used
                    &&& made.open
                    &&& made.receiver_domain == NO_DOMAIN
                    &&& made.queued == 0
                    &&& made.reserved_cells == 0
                    &&& made.capacity == request.queue_capacity
                    &&& 0 < request.queue_capacity <= MAX_ENDPOINT_QUEUE
                    &&& made.id == m.next_id
                    &&& made.epoch == m.next_id
                    &&& made.owner_scope == ctx.cap.object.index
                    &&& made.label == request.label
                    &&& holds_new(
                        m,
                        after,
                        ctx.domain as int,
                        m.minted_handle(ctx.domain as int),
                        ObjRef {
                            kind: ObjKind::Endpoint,
                            index: i as u16,
                            generation: made.generation,
                        },
                        ObjKind::Endpoint.mask_spec(),
                    )
                    &&& forall|k: int|
                        0 <= k < MAX_ENDPOINTS && k != i ==> #[trigger] after.endpoints[k]
                            == m.endpoints[k]
                }
        }),
{
    let sponsor = ctx.cap.object.index;
    let i = first_endpoint(m.endpoints, 0);
    endpoint_is_free(m.endpoints, 0);
    claiming_keeps_wf(m, sponsor);
    let generation = crate::ctrl::one_more(m.endpoints[i].generation);
    let made = m.claimed(sponsor).with_endpoint(
        i,
        Endpoint {
            used: true,
            open: true,
            generation,
            id: m.next_id,
            epoch: m.next_id,
            owner_scope: sponsor,
            capacity: request.queue_capacity,
            label: request.label,
            ..Endpoint::empty_spec()
        },
    );
    assert(made.wf());
    let o = ObjRef { kind: ObjKind::Endpoint, index: i as u16, generation };
    creators_hold(m, made, sponsor, ctx.domain as int, o, ObjKind::Endpoint.mask_spec());
    let after = m.endpoint_created(ctx, request);
    assert(after.endpoints[i].used);
}

proof fn endpoint_is_free(endpoints: Seq<Endpoint>, from: int)
    requires
        0 <= from <= MAX_ENDPOINTS,
    ensures
        ({
            let i = first_endpoint(endpoints, from);
            &&& from <= i <= MAX_ENDPOINTS
            &&& i < MAX_ENDPOINTS ==> !endpoints[i].used
        }),
    decreases MAX_ENDPOINTS - from,
{
    if from < MAX_ENDPOINTS && endpoints[from].used {
        endpoint_is_free(endpoints, from + 1);
    }
}

/// A facet is a number no other facet of the endpoint has, and its capability has
/// the rights asked for and no more than the one it was bound with.
pub proof fn a_facet_is_new(m: MachineModel, ctx: Ctx, request: BindFacetRequest)
    requires
        m.wf(),
        ctx_ok(ctx, ObjKind::Endpoint),
        m.facet_fault(ctx, request) is None,
        m.grants[ctx.cap.grant as int].used,
    ensures
        ({
            let after = m.facet_bound(ctx, request);
            let e = ctx.cap.object.index as int;
            let handle = m.minted_handle(ctx.domain as int);
            let at = ctx.domain * MAX_CAPS + handle as int % 0x1_0000_0000;
            let grant = after.grants[after.caps[at].grant as int];
            let parent = m.grants[ctx.cap.grant as int];
            &&& !m.caps[at].live
            &&& after.caps[at].live
            &&& after.caps[at].object == ctx.cap.object
            &&& grant.parent == ctx.cap.grant
            &&& grant.facet == m.endpoints[e].next_facet
            &&& after.endpoints[e].next_facet == m.endpoints[e].next_facet + 1
            &&& grant.rights == request.rights_mask
            &&& request.rights_mask & !ctx.cap.rights == 0
            &&& request.deadline_ns == 0 ==> grant.deadline_ns == parent.deadline_ns
            &&& request.deadline_ns != 0 ==> grant.deadline_ns == request.deadline_ns && (
            parent.deadline_ns == 0 || request.deadline_ns <= parent.deadline_ns)
            &&& grant.life_scope == parent.life_scope
        }),
{
    let e = ctx.cap.object.index as int;
    let parent = m.grants[ctx.cap.grant as int];
    let counted = m.with_endpoint(
        e,
        Endpoint {
            next_facet: (m.endpoints[e].next_facet + 1) as u64,
            facets: crate::ctrl::one_more(m.endpoints[e].facets),
            ..m.endpoints[e]
        },
    );
    assert(counted.wf());
    assert(counted.can_mint(ctx.domain as int, ctx.cap.grant)) by {
        assert(m.can_mint(ctx.domain as int, ctx.cap.grant));
    }
    a_new_capability_is_what_was_asked_for(
        counted,
        ctx.domain as int,
        ctx.cap.grant,
        ctx.cap.object,
        request.rights_mask,
        crate::api::ipcops::narrowed_deadline(parent.deadline_ns, request.deadline_ns)->0,
        parent.life_scope,
        m.endpoints[e].next_facet,
    );
}

} // verus!
