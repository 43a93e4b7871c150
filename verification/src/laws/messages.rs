//! Messages: what is sent waits in order, arrives once, and is answered once.

use vstd::prelude::*;

use crate::abi::request::{ReplyRequest, ResolveRequest, SendRequest};
use crate::abi::status::Status;
use crate::abi::{cap_op, message_kind, slot_of};
use crate::api::calls::{caller_ok, Received};
use crate::api::ipcops::{first_invocation, first_message};
use crate::api::scopeops::{entries_ok, release_slot_touches_one};
use crate::api::{ctx_ok, Ctx};
use crate::ipc::{Cancel, DeliveredCap, Effect, Endpoint, Invocation, State, NO_DOMAIN};
use crate::limits::{
    MAX_CAPS, MAX_DERIVE_DEPTH, MAX_DOMAINS, MAX_ENDPOINTS, MAX_INLINE_PAYLOAD, MAX_INVOCATIONS,
    MAX_MESSAGES, MAX_MESSAGE_CAPS, MAX_SCOPES, MAX_THREADS,
};
use crate::obj::{
    cap_at, cap_lookup, count_free, filling_takes_one_slot, some_slot_is_first, CapEntry, ObjKind,
    ObjRef, NO_GRANT,
};
use crate::state::{cap_ok, grant_ref_ok, ref_ok, Domain, MachineModel, ThreadState, Wait, WakeHint};

verus! {

/// Authority may have moved from `a` to `b` and nothing else: no thread, queue or
/// message differs, an endpoint or a domain differs in what refers to it at most,
/// and scopes keep who they are.
pub open spec fn only_authority_moved(a: MachineModel, b: MachineModel) -> bool {
    &&& b.threads == a.threads
    &&& b.queues == a.queues
    &&& b.messages == a.messages
    &&& b.next_id == a.next_id
    &&& b.system_log == a.system_log
    &&& b.endpoints.len() == a.endpoints.len()
    &&& b.domains.len() == a.domains.len()
    &&& b.scopes.len() == a.scopes.len()
    &&& b.invocations.len() == a.invocations.len()
    &&& forall|k: int|
        0 <= k < a.endpoints.len() ==> #[trigger] b.endpoints[k] == (Endpoint {
            refs: b.endpoints[k].refs,
            ..a.endpoints[k]
        })
    &&& forall|k: int|
        0 <= k < a.domains.len() ==> #[trigger] b.domains[k] == (Domain {
            refs: b.domains[k].refs,
            ..a.domains[k]
        })
    &&& forall|k: int|
        0 <= k < a.scopes.len() ==> (#[trigger] b.scopes[k]).id == a.scopes[k].id
            && b.scopes[k].state == a.scopes[k].state && b.scopes[k].invocations_pending
            == a.scopes[k].invocations_pending
    &&& forall|k: int|
        0 <= k < a.invocations.len() ==> {
            ||| #[trigger] b.invocations[k] == (Invocation {
                refs: b.invocations[k].refs,
                ..a.invocations[k]
            })
            ||| a.invocations[k].state == State::Resolved
        }
}

proof fn authority_moves_on(a: MachineModel, b: MachineModel, c: MachineModel)
    requires
        only_authority_moved(a, b),
        only_authority_moved(b, c),
    ensures
        only_authority_moved(a, c),
{
    assert forall|k: int| 0 <= k < a.endpoints.len() implies #[trigger] c.endpoints[k] == (
    Endpoint { refs: c.endpoints[k].refs, ..a.endpoints[k] }) by {
        assert(b.endpoints[k].refs == b.endpoints[k].refs);
    }
    assert forall|k: int| 0 <= k < a.domains.len() implies #[trigger] c.domains[k] == (Domain {
        refs: c.domains[k].refs,
        ..a.domains[k]
    }) by {
        assert(b.domains[k].refs == b.domains[k].refs);
    }
    assert forall|k: int| 0 <= k < a.scopes.len() implies (#[trigger] c.scopes[k]).id
        == a.scopes[k].id && c.scopes[k].state == a.scopes[k].state
        && c.scopes[k].invocations_pending == a.scopes[k].invocations_pending by {
        assert(b.scopes[k].id == a.scopes[k].id);
    }
    assert forall|k: int| 0 <= k < a.invocations.len() implies {
        ||| #[trigger] c.invocations[k] == (Invocation {
            refs: c.invocations[k].refs,
            ..a.invocations[k]
        })
        ||| a.invocations[k].state == State::Resolved
    } by {
        assert(b.invocations[k].refs == b.invocations[k].refs);
    }
}

/// The capability tables are whole, and every entry names a record there is.
spec fn held_ok(m: MachineModel) -> bool {
    &&& entries_ok(m)
    &&& m.scopes.len() == MAX_SCOPES
    &&& m.endpoints.len() == MAX_ENDPOINTS
    &&& m.invocations.len() == MAX_INVOCATIONS
}

proof fn counting_moves_authority(m: MachineModel, o: ObjRef, more: bool)
    requires
        held_ok(m),
        ref_ok(o),
    ensures
        only_authority_moved(m, m.count_ref(o, more)),
{
}

proof fn installing_moves_authority(m: MachineModel, domain: int, slot: int, o: ObjRef, g: u16)
    requires
        held_ok(m),
        ref_ok(o),
        grant_ref_ok(g),
        0 <= domain < MAX_DOMAINS,
        0 <= slot < MAX_CAPS,
    ensures
        only_authority_moved(m, m.install(domain, slot, o, g)),
        m.install(domain, slot, o, g).caps == crate::obj::with_cap(m.caps, domain, slot, o, g),
        held_ok(m.install(domain, slot, o, g)),
{
    let paid = m.charge(m.domains[domain].owner_scope, crate::scope::Resource::Metadata, 1);
    let filled = MachineModel {
        caps: crate::obj::with_cap(paid.caps, domain, slot, o, g),
        ..paid
    }.count_grant(g, true);
    assert(only_authority_moved(m, filled));
    counting_moves_authority(filled, o, true);
    authority_moves_on(m, filled, m.install(domain, slot, o, g));
}

proof fn collecting_moves_authority(m: MachineModel, g: u16, steps: nat)
    ensures
        only_authority_moved(m, m.collect_grant(g, steps)),
    decreases steps,
{
    if !(steps == 0 || g == NO_GRANT || !m.is_idle_grant(g as int)) {
        let freed = m.free_grant(g as int);
        assert(only_authority_moved(m, freed));
        let up = m.grants[g as int].parent;
        collecting_moves_authority(freed, up, (steps - 1) as nat);
        authority_moves_on(m, freed, freed.collect_grant(up, (steps - 1) as nat));
    }
}

proof fn releasing_moves_authority(m: MachineModel, domain: int, slot: int)
    requires
        held_ok(m),
        0 <= domain < MAX_DOMAINS,
        0 <= slot < MAX_CAPS,
    ensures
        only_authority_moved(m, m.release_slot(domain, slot)),
        held_ok(m.release_slot(domain, slot)),
{
    release_slot_touches_one(m, domain, slot);
    let entry = m.caps[cap_at(domain, slot)];
    if entry.live {
        let i = entry.object.index as int;
        let paid = MachineModel {
            caps: crate::obj::without_cap(m.caps, domain, slot),
            ..m
        }.uncharge(
            m.domains[domain].owner_scope,
            crate::scope::Resource::Metadata,
            1,
        ).count_grant(entry.grant, false);
        assert(only_authority_moved(m, paid));
        let unpaid = paid.count_ref(entry.object, false);
        counting_moves_authority(paid, entry.object, false);
        authority_moves_on(m, paid, unpaid);
        let collected = match entry.object.kind {
            ObjKind::Invocation => unpaid.collect_invocation(i),
            ObjKind::Memory => if unpaid.memories[i].generation == entry.object.generation {
                unpaid.collect_memory(i, false)
            } else {
                unpaid
            },
            _ => unpaid,
        };
        assert(only_authority_moved(unpaid, collected));
        authority_moves_on(m, unpaid, collected);
        collecting_moves_authority(collected, entry.grant, MAX_DERIVE_DEPTH as nat);
        authority_moves_on(
            m,
            collected,
            collected.collect_grant(entry.grant, MAX_DERIVE_DEPTH as nat),
        );
    }
}

/// The handles name entries of a table.
spec fn names_entries(source: Seq<CapEntry>, giver: int, caps: Seq<u64>, n: int) -> bool {
    forall|j: int|
        0 <= j < n ==> (#[trigger] cap_lookup(source, giver, caps[j])) is Some && cap_ok(
            cap_lookup(source, giver, caps[j])->0,
        )
}

/// The capability in place `j` stands in the receiver's table where it was put:
/// the same object under the same grant, in a slot that was free.
spec fn arrived(
    before: Seq<CapEntry>,
    after: Seq<CapEntry>,
    source: Seq<CapEntry>,
    giver: int,
    caps: Seq<u64>,
    receiver: int,
    put: DeliveredCap,
    j: int,
) -> bool {
    let sent = cap_lookup(source, giver, caps[j])->0;
    let at = cap_at(receiver, put.slot as int);
    &&& put.slot < MAX_CAPS
    &&& slot_of(put.handle) == put.slot
    &&& !before[at].live
    &&& after[at].live
    &&& after[at].object == sent.object
    &&& after[at].grant == sent.grant
    &&& cap_lookup(after, receiver, put.handle) == Some(after[at])
}

proof fn placing_moves_authority(
    m: MachineModel,
    source: Seq<CapEntry>,
    giver: int,
    caps: Seq<u64>,
    receiver: int,
    n: nat,
    more: nat,
)
    requires
        held_ok(m),
        0 <= receiver < MAX_DOMAINS,
        names_entries(source, giver, caps, n as int),
        count_free(m.caps, receiver, 0) >= n + more,
    ensures
        ({
            let after = m.placed(source, giver, caps, receiver, n);
            &&& only_authority_moved(m, after)
            &&& held_ok(after)
            &&& count_free(after.caps, receiver, 0) >= more
            &&& forall|k: int|
                0 <= k < m.caps.len() && m.caps[k].live ==> #[trigger] after.caps[k] == m.caps[k]
            &&& forall|j: int|
                0 <= j < n ==> #[trigger] arrived(
                    m.caps,
                    after.caps,
                    source,
                    giver,
                    caps,
                    receiver,
                    m.placed_at(source, giver, caps, receiver, j as nat),
                    j,
                )
        }),
    decreases n,
{
    if n > 0 {
        placing_moves_authority(m, source, giver, caps, receiver, (n - 1) as nat, more + 1);
        let before = m.placed(source, giver, caps, receiver, (n - 1) as nat);
        assert(cap_lookup(source, giver, caps[n - 1]) is Some);
        let entry = cap_lookup(source, giver, caps[n - 1])->0;
        let slot = before.slot_for(receiver, None);
        some_slot_is_first(before.caps, receiver, 0);
        filling_takes_one_slot(before.caps, receiver, slot, entry.object, entry.grant, 0);
        installing_moves_authority(before, receiver, slot, entry.object, entry.grant);
        let after = before.install(receiver, slot, entry.object, entry.grant);
        authority_moves_on(m, before, after);
        crate::abi::handle_round_trip(
            slot as u32,
            (before.caps[cap_at(receiver, slot)].generation + 1) as u32,
        );
        assert(!m.caps[cap_at(receiver, slot)].live);
        assert forall|j: int| 0 <= j < n implies #[trigger] arrived(
            m.caps,
            after.caps,
            source,
            giver,
            caps,
            receiver,
            m.placed_at(source, giver, caps, receiver, j as nat),
            j,
        ) by {
            if j < n - 1 {
                assert(arrived(
                    m.caps,
                    before.caps,
                    source,
                    giver,
                    caps,
                    receiver,
                    m.placed_at(source, giver, caps, receiver, j as nat),
                    j,
                ));
            }
        }
    }
}

proof fn giving_up_moves_authority(
    m: MachineModel,
    giver: int,
    caps: Seq<u64>,
    ops: Seq<u32>,
    n: nat,
)
    requires
        held_ok(m),
        0 <= giver < MAX_DOMAINS,
        forall|j: int| 0 <= j < n ==> slot_of(#[trigger] caps[j]) < MAX_CAPS,
    ensures
        ({
            let after = m.given_up(giver, caps, ops, n);
            &&& only_authority_moved(m, after)
            &&& held_ok(after)
            &&& forall|k: int|
                0 <= k < m.caps.len() && (forall|j: int|
                    0 <= j < n && ops[j] == cap_op::MOVE ==> cap_at(
                        giver,
                        slot_of(#[trigger] caps[j]) as int,
                    ) != k) ==> #[trigger] after.caps[k] == m.caps[k]
            &&& forall|j: int|
                0 <= j < n && ops[j] == cap_op::MOVE ==> !after.caps[cap_at(
                    giver,
                    slot_of(#[trigger] caps[j]) as int,
                )].live
        }),
    decreases n,
{
    if n > 0 {
        giving_up_moves_authority(m, giver, caps, ops, (n - 1) as nat);
        let before = m.given_up(giver, caps, ops, (n - 1) as nat);
        assert(slot_of(caps[n - 1]) < MAX_CAPS);
        if ops[n - 1] == cap_op::MOVE {
            let slot = slot_of(caps[n - 1]) as int;
            release_slot_touches_one(before, giver, slot);
            releasing_moves_authority(before, giver, slot);
            authority_moves_on(m, before, before.release_slot(giver, slot));
        }
    }
}

/// Waking a receiver changes no more than threads and who is listed as waiting.
proof fn waking_wakes_only(m: MachineModel, e: int, hint: WakeHint, t: int)
    requires
        0 <= t,
        0 <= e < m.endpoints.len(),
    ensures
        ({
            let after = m.wake_receiver(e, hint, t);
            &&& after == (MachineModel {
                threads: after.threads,
                endpoints: after.endpoints,
                ..m
            })
            &&& m.threads.len() == MAX_THREADS ==> after.threads.len() == MAX_THREADS
            &&& after.endpoints.len() == m.endpoints.len()
            &&& after.endpoints[e] == (Endpoint {
                receivers: after.endpoints[e].receivers,
                ..m.endpoints[e]
            })
            &&& forall|k: int|
                0 <= k < m.endpoints.len() && k != e ==> #[trigger] after.endpoints[k]
                    == m.endpoints[k]
        }),
    decreases MAX_THREADS - t,
{
    if t < MAX_THREADS {
        if !m.endpoints[e].receivers@[t] {
            waking_wakes_only(m, e, hint, t + 1);
        } else {
            let wait = Wait::Receive(e as u16, m.endpoints[e].generation);
            let after = m.wake_waiting(t, wait, Status::Success, hint).unlisted(e, t);
            waking_wakes_only(after, e, hint, t + 1);
        }
    }
}

/// A message that is admitted waits behind all that wait already, and says what
/// was sent: its kind, its bytes and how many, zeros behind them, and how many
/// capabilities came with it. It takes a record that was free; no other message
/// and no other queue changes.
pub proof fn a_message_waits_behind_the_others(
    m: MachineModel,
    ctx: Ctx,
    request: SendRequest,
    kind: u32,
    waiter: Option<u16>,
)
    requires
        m.wf(),
        ctx_ok(ctx, ObjKind::Endpoint),
        m.admission_fault(ctx, request, kind) is None,
    ensures
        exists|k: int|
            {
                let e = ctx.cap.object.index as int;
                let after = m.admitted(ctx, request, kind, waiter);
                let message = after.messages[k];
                &&& 0 <= k < MAX_MESSAGES
                &&& !(#[trigger] m.messages[k]).used
                &&& message.used
                &&& message.endpoint == e
                &&& message.kind == kind
                &&& message.payload_len == request.payload_len
                &&& message.cap_count == request.cap_count
                &&& forall|b: int|
                    0 <= b < request.payload_len ==> #[trigger] message.payload@[b]
                        == request.payload@[b]
                &&& forall|b: int|
                    request.payload_len <= b < MAX_INLINE_PAYLOAD
                        ==> #[trigger] message.payload@[b] == 0
                &&& after.queues[e].len() == m.queues[e].len() + 1
                &&& after.queues[e].last() == k
                &&& forall|q: int|
                    0 <= q < m.queues[e].len() ==> #[trigger] after.queues[e][q] == m.queues[e][q]
                &&& forall|x: int|
                    0 <= x < MAX_ENDPOINTS && x != e ==> #[trigger] after.queues[x] == m.queues[x]
                &&& forall|j: int|
                    0 <= j < MAX_MESSAGES && j != k ==> #[trigger] after.messages[j]
                        == m.messages[j]
            },
{
    let e = ctx.cap.object.index as int;
    let k = m.free_message();
    message_is_free(m.messages, 0);
    preparing_moves_authority(m, ctx, request, kind);
    let ready = m.prepared(ctx, request, kind);
    assert forall|x: MachineModel, hint: WakeHint|
        0 <= e < x.endpoints.len() implies (#[trigger] x.wake_receiver(e, hint, 0)).queues
        == x.queues && x.wake_receiver(e, hint, 0).messages == x.messages by {
        waking_wakes_only(x, e, hint, 0);
    }
    crate::bytes::array_of_holds::<u8, MAX_INLINE_PAYLOAD>(
        Seq::new(
            MAX_INLINE_PAYLOAD as nat,
            |i: int|
                if i < request.payload_len {
                    request.payload@[i]
                } else {
                    0
                },
        ),
    );
    let after = m.admitted(ctx, request, kind, waiter);
    assert(ready.queues == m.queues && ready.messages == m.messages);
    assert(!m.messages[k].used);
    assert(after.queues[e] == m.queues[e].push(k as u16));
}

/// What a batch of capabilities that is accepted looks like.
proof fn batch_is_sound(m: MachineModel, domain: int, request: SendRequest, now: u64, i: int)
    requires
        held_ok(m),
        0 <= domain < MAX_DOMAINS,
        0 <= i,
        m.batch_fault(domain, request, now, i) is None,
    ensures
        forall|j: int|
            i <= j < request.cap_count ==> (#[trigger] cap_lookup(
                m.caps,
                domain,
                request.caps@[j],
            )) is Some && cap_ok(cap_lookup(m.caps, domain, request.caps@[j])->0),
        forall|h: int, j: int|
            0 <= h < j && i <= j < request.cap_count ==> slot_of(#[trigger] request.caps@[h])
                != slot_of(#[trigger] request.caps@[j]),
    decreases request.cap_count - i,
{
    if i < request.cap_count {
        batch_is_sound(m, domain, request, now, i + 1);
    }
}

proof fn preparing_moves_authority(m: MachineModel, ctx: Ctx, request: SendRequest, kind: u32)
    requires
        m.wf(),
        ctx_ok(ctx, ObjKind::Endpoint),
        m.admission_fault(ctx, request, kind) is None,
    ensures
        ({
            let paid = m.paid_for(ctx, request, kind);
            let ready = m.prepared(ctx, request, kind);
            let d = ctx.domain as int;
            let receiver = m.endpoints[ctx.cap.object.index as int].receiver_domain as int;
            &&& only_authority_moved(paid, ready)
            &&& 0 <= receiver < MAX_DOMAINS
            &&& names_entries(m.caps, d, request.caps@, request.cap_count as int)
            &&& forall|j: int|
                0 <= j < request.cap_count ==> #[trigger] arrived(
                    m.caps,
                    ready.caps,
                    m.caps,
                    d,
                    request.caps@,
                    receiver,
                    paid.placed_at(m.caps, d, request.caps@, receiver, j as nat),
                    j,
                )
            &&& forall|j: int|
                0 <= j < request.cap_count ==> ({
                    let at = cap_at(d, slot_of(#[trigger] request.caps@[j]) as int);
                    if request.cap_ops@[j] == cap_op::MOVE {
                        !ready.caps[at].live
                    } else {
                        ready.caps[at] == m.caps[at]
                    }
                })
        }),
{
    let e = ctx.cap.object.index as int;
    let paid = m.paid_for(ctx, request, kind);
    let d = ctx.domain as int;
    let n = request.cap_count as nat;
    let receiver = m.endpoints[e].receiver_domain as int;
    batch_is_sound(m, d, request, ctx.now, 0);
    let given = paid.placed(m.caps, d, request.caps@, receiver, n);
    let ready = m.prepared(ctx, request, kind);
    placing_moves_authority(paid, m.caps, d, request.caps@, receiver, n, 0);
    assert forall|j: int| 0 <= j < n implies slot_of(#[trigger] request.caps@[j]) < MAX_CAPS by {
        assert(cap_lookup(m.caps, d, request.caps@[j]) is Some);
    }
    giving_up_moves_authority(given, d, request.caps@, request.cap_ops@, n);
    authority_moves_on(paid, given, ready);
    assert forall|j: int| 0 <= j < n implies #[trigger] arrived(
        m.caps,
        ready.caps,
        m.caps,
        d,
        request.caps@,
        receiver,
        paid.placed_at(m.caps, d, request.caps@, receiver, j as nat),
        j,
    ) by {
        let put = paid.placed_at(m.caps, d, request.caps@, receiver, j as nat);
        assert(arrived(m.caps, given.caps, m.caps, d, request.caps@, receiver, put, j));
        let at = cap_at(receiver, put.slot as int);
        assert forall|h: int| 0 <= h < n && request.cap_ops@[h] == cap_op::MOVE implies cap_at(
            d,
            slot_of(#[trigger] request.caps@[h]) as int,
        ) != at by {
            assert(cap_lookup(m.caps, d, request.caps@[h]) is Some);
        }
        assert(ready.caps[at] == given.caps[at]);
    }
    assert forall|j: int| 0 <= j < n implies ({
        let at = cap_at(d, slot_of(#[trigger] request.caps@[j]) as int);
        if request.cap_ops@[j] == cap_op::MOVE {
            !ready.caps[at].live
        } else {
            ready.caps[at] == m.caps[at]
        }
    }) by {
        let at = cap_at(d, slot_of(request.caps@[j]) as int);
        assert(cap_lookup(m.caps, d, request.caps@[j]) is Some);
        assert(given.caps[at] == m.caps[at]);
        if request.cap_ops@[j] != cap_op::MOVE {
            assert forall|h: int| 0 <= h < n && request.cap_ops@[h] == cap_op::MOVE implies cap_at(
                d,
                slot_of(#[trigger] request.caps@[h]) as int,
            ) != at by {
                assert(h < j || j < h);
            }
            assert(ready.caps[at] == given.caps[at]);
        }
    }
}

/// What a sender hands over, the receiver holds: each capability stands in the
/// receiver's table, in a slot that was free, under the handle the message tells
/// and for the same object and grant. One that was moved is gone from the sender's
/// table, one that was copied is as it was.
pub proof fn each_capability_sent_arrives(
    m: MachineModel,
    ctx: Ctx,
    request: SendRequest,
    kind: u32,
    waiter: Option<u16>,
    k: int,
    j: int,
)
    requires
        m.wf(),
        ctx_ok(ctx, ObjKind::Endpoint),
        m.admission_fault(ctx, request, kind) is None,
        0 <= j < request.cap_count,
        m.admitted(ctx, request, kind, waiter).queues[ctx.cap.object.index as int].last() == k,
    ensures
        ({
            let after = m.admitted(ctx, request, kind, waiter);
            let receiver = m.endpoints[ctx.cap.object.index as int].receiver_domain as int;
            let handle = request.caps@[j] as int;
            let from = ctx.domain * MAX_CAPS + handle % 0x1_0000_0000;
            let sent = m.caps[from];
            let put = after.messages[k].caps@[j];
            let to = receiver * MAX_CAPS + put.slot;
            &&& sent.live
            &&& sent.generation == handle / 0x1_0000_0000
            &&& put.slot < MAX_CAPS
            &&& put.handle as int % 0x1_0000_0000 == put.slot
            &&& put.handle as int / 0x1_0000_0000 == after.caps[to].generation
            &&& put.grant == sent.grant
            &&& !m.caps[to].live
            &&& after.caps[to].live
            &&& after.caps[to].object == sent.object
            &&& after.caps[to].grant == sent.grant
            &&& if request.cap_ops@[j] == cap_op::MOVE {
                !after.caps[from].live
            } else {
                after.caps[from] == sent
            }
        }),
{
    let e = ctx.cap.object.index as int;
    let d = ctx.domain as int;
    let receiver = m.endpoints[e].receiver_domain as int;
    message_is_free(m.messages, 0);
    preparing_moves_authority(m, ctx, request, kind);
    let paid = m.paid_for(ctx, request, kind);
    let ready = m.prepared(ctx, request, kind);
    assert forall|x: MachineModel, hint: WakeHint|
        0 <= e < x.endpoints.len() implies (#[trigger] x.wake_receiver(e, hint, 0)).queues
        == x.queues && x.wake_receiver(e, hint, 0).messages == x.messages && x.wake_receiver(
        e,
        hint,
        0,
    ).caps == x.caps by {
        waking_wakes_only(x, e, hint, 0);
    }
    let caps = paid.placements(
        m.caps,
        d,
        request.caps@,
        receiver,
        request.cap_count as int,
    );
    crate::bytes::array_of_holds::<DeliveredCap, MAX_MESSAGE_CAPS>(caps);
    let after = m.admitted(ctx, request, kind, waiter);
    assert(ready.queues == m.queues && ready.messages == m.messages);
    assert(after.queues[e] == m.queues[e].push(m.free_message() as u16));
    assert(after.caps == ready.caps);
    assert(after.messages[k].caps@ == caps);
    let put = paid.placed_at(m.caps, d, request.caps@, receiver, j as nat);
    assert(arrived(m.caps, ready.caps, m.caps, d, request.caps@, receiver, put, j));
    assert(cap_lookup(m.caps, d, request.caps@[j]) is Some);
    assert(slot_of(request.caps@[j]) < MAX_CAPS);
}

/// An obligation records who asked for what: the sender and the scope it worked
/// for, the capability it went through, when, for which message, and the
/// obligation it was itself working on. It takes a record that was free.
pub proof fn an_obligation_records_its_sender(
    m: MachineModel,
    ctx: Ctx,
    request: SendRequest,
    kind: u32,
    waiter: Option<u16>,
)
    requires
        m.wf(),
        ctx_ok(ctx, ObjKind::Endpoint),
        m.admission_fault(ctx, request, kind) is None,
    ensures
        ({
            let i = m.admission(ctx, request, kind).invocation as int;
            let e = ctx.cap.object.index as int;
            let after = m.admitted(ctx, request, kind, waiter);
            let made = after.invocations[i];
            let sender = m.threads[ctx.thread as int];
            &&& 0 <= i < MAX_INVOCATIONS
            &&& m.invocations[i].state == State::Empty
            &&& made.state == State::Admitted
            &&& made.id == m.next_id
            &&& m.admission(ctx, request, kind).id == m.next_id
            &&& m.admission(ctx, request, kind).generation == made.generation
            &&& after.next_id == m.next_id + 1
            &&& made.endpoint == e
            &&& made.endpoint_generation == m.endpoints[e].generation
            &&& made.epoch == m.endpoints[e].epoch
            &&& made.origin_domain == ctx.domain
            &&& made.origin_domain_generation == m.domains[ctx.domain as int].generation
            &&& made.origin_domain_id == m.domains[ctx.domain as int].id
            &&& made.origin_scope == sender.effective_scope
            &&& made.origin_scope_id == m.scopes[sender.effective_scope as int].id
            &&& made.parent_id == match sender.bound {
                Some((b, _)) => m.invocations[b as int].id,
                None => 0,
            }
            &&& made.waiter == waiter
            &&& made.grant == ctx.cap.grant
            &&& made.facet == ctx.cap.facet
            &&& made.admitted_ns == ctx.now
            &&& made.effect == Effect::Unasked
            &&& made.cancel == Cancel::Live
            &&& !made.replied
            &&& made.receiver_domain == m.endpoints[e].receiver_domain
            &&& after.messages[made.message as int].invocation == i
            &&& after.queues[e].last() == made.message
            &&& kind != message_kind::FAULT ==> made.charged_bytes
                == 64 + request.payload_len
            &&& kind == message_kind::FAULT ==> made.charged_bytes == 0
        }),
{
    let e = ctx.cap.object.index as int;
    message_is_free(m.messages, 0);
    invocation_is_free(m.invocations, 0);
    preparing_moves_authority(m, ctx, request, kind);
    let paid = m.paid_for(ctx, request, kind);
    let ready = m.prepared(ctx, request, kind);
    assert forall|x: MachineModel, hint: WakeHint|
        0 <= e < x.endpoints.len() implies (#[trigger] x.wake_receiver(e, hint, 0)).queues
        == x.queues && x.wake_receiver(e, hint, 0).messages == x.messages && x.wake_receiver(
        e,
        hint,
        0,
    ).invocations == x.invocations && x.wake_receiver(e, hint, 0).next_id == x.next_id by {
        waking_wakes_only(x, e, hint, 0);
    }
    let i = m.free_invocation();
    let k = m.free_message();
    let scope = m.threads[ctx.thread as int].effective_scope as int;
    assert(crate::state::thread_ok(m.threads[ctx.thread as int]));
    assert(ready.scopes[scope].id == m.scopes[scope].id);
    assert(ready.domains[ctx.domain as int].refs == ready.domains[ctx.domain as int].refs);
    assert(ready.endpoints[e].refs == ready.endpoints[e].refs);
    let after = m.admitted(ctx, request, kind, waiter);
    assert(after.queues[e] == m.queues[e].push(k as u16));
}

/// A new capability changes no queue and no message, and an endpoint or an
/// obligation in what refers to it at most.
proof fn minting_keeps_messages(m: MachineModel, domain: int, o: ObjRef, rights: u32, facet: u64)
    requires
        m.wf(),
        0 <= domain < MAX_DOMAINS,
        m.can_mint(domain, NO_GRANT),
        ref_ok(o),
    ensures
        ({
            let after = m.minted(domain, NO_GRANT, o, rights, 0, None, facet);
            &&& after.queues == m.queues
            &&& after.messages == m.messages
            &&& after.threads == m.threads
            &&& after.endpoints.len() == m.endpoints.len()
            &&& after.invocations.len() == m.invocations.len()
            &&& forall|k: int|
                0 <= k < MAX_ENDPOINTS ==> #[trigger] after.endpoints[k] == (Endpoint {
                    refs: after.endpoints[k].refs,
                    ..m.endpoints[k]
                })
            &&& forall|k: int|
                0 <= k < MAX_INVOCATIONS ==> #[trigger] after.invocations[k] == (Invocation {
                    refs: after.invocations[k].refs,
                    ..m.invocations[k]
                })
        }),
{
    let owner = m.domains[domain].owner_scope;
    let made = m.granted(owner, NO_GRANT, o, rights, 0, None, facet);
    assert(made == (MachineModel {
        scopes: made.scopes,
        grants: made.grants,
        grant_hint: made.grant_hint,
        next_id: made.next_id,
        ..m
    }));
}

proof fn claiming_is_sound(m: MachineModel, d: int, e: int)
    requires
        m.wf(),
        0 <= d < MAX_DOMAINS,
        0 <= e < MAX_ENDPOINTS,
    ensures
        ({
            let after = m.receiver_claimed(d, e);
            &&& after.wf()
            &&& after == (MachineModel { endpoints: after.endpoints, ..m })
            &&& after.endpoints[e] == (Endpoint {
                receiver_domain: after.endpoints[e].receiver_domain,
                receiver_generation: after.endpoints[e].receiver_generation,
                ..m.endpoints[e]
            })
            &&& m.endpoints[e].receiver_domain == NO_DOMAIN
                ==> after.endpoints[e].receiver_domain == d
            &&& m.endpoints[e].receiver_domain != NO_DOMAIN ==> after == m
        }),
{
}

/// What is received is the oldest message, and it is received once: it leaves the
/// queue and its record, the rest of the queue stays in order, and its obligation
/// is now the receiver's.
pub proof fn the_oldest_message_is_received(
    m: MachineModel,
    ctx: Ctx,
    now: u64,
    e: int,
    ticket: u64,
    told: crate::abi::request::ReceiveResult,
)
    requires
        m.wf(),
        caller_ok(ctx),
        0 <= e < MAX_ENDPOINTS,
        m.endpoint_cap(ctx, crate::abi::right::ENDPOINT_RECEIVE, now) matches Ok(cap)
            && cap.object.index == e,
        m.reception(ctx, now).1 == Ok::<Received, Status>(Received::Message(ticket, told)),
    ensures
        ({
            let after = m.reception(ctx, now).0;
            let k = m.queues[e][0] as int;
            let i = m.messages[k].invocation as int;
            &&& m.queues[e].len() > 0
            &&& m.endpoints[e].receiver_domain == NO_DOMAIN || m.endpoints[e].receiver_domain
                == ctx.domain
            &&& after.endpoints[e].receiver_domain == ctx.domain
            &&& after.queues[e].len() == m.queues[e].len() - 1
            &&& forall|q: int|
                0 <= q < after.queues[e].len() ==> #[trigger] after.queues[e][q]
                    == m.queues[e][q + 1]
            &&& !after.messages[k].used
            &&& forall|j: int|
                0 <= j < MAX_MESSAGES && j != k ==> #[trigger] after.messages[j] == m.messages[j]
            &&& after.invocations[i].state == State::Delivered
            &&& after.invocations[i].receiver_domain == ctx.domain
            &&& after.invocations[i].id == m.invocations[i].id
            &&& forall|j: int|
                0 <= j < MAX_INVOCATIONS && j != i ==> (#[trigger] after.invocations[j]).state
                    == m.invocations[j].state
        }),
{
    let d = ctx.domain as int;
    let k = m.queues[e][0] as int;
    claiming_is_sound(m, d, e);
    let claimed = m.receiver_claimed(d, e);
    assert(m.queues[e].len() > 0);
    assert(m.queues[e][0] < MAX_MESSAGES);
    assert(crate::state::message_ok(m.messages[k]));
    let i = m.messages[k].invocation;
    let o = ObjRef {
        kind: ObjKind::Invocation,
        index: i,
        generation: m.invocations[i as int].generation,
    };
    minting_keeps_messages(claimed, d, o, 0xFB, m.invocations[i as int].facet);
}

/// A receiver is told what the message and its obligation say: the bytes, the
/// handles that were put in its table, and who sent it for whom under what.
pub proof fn a_receiver_is_told_what_was_sent(
    m: MachineModel,
    ctx: Ctx,
    now: u64,
    e: int,
    ticket: u64,
    told: crate::abi::request::ReceiveResult,
)
    requires
        m.wf(),
        caller_ok(ctx),
        0 <= e < MAX_ENDPOINTS,
        m.endpoint_cap(ctx, crate::abi::right::ENDPOINT_RECEIVE, now) matches Ok(cap)
            && cap.object.index == e,
        m.reception(ctx, now).1 == Ok::<Received, Status>(Received::Message(ticket, told)),
    ensures
        ({
            let message = m.messages[m.queues[e][0] as int];
            let asked = m.invocations[message.invocation as int];
            &&& told.payload == message.payload
            &&& told.header.payload_len == message.payload_len
            &&& told.header.kind == message.kind
            &&& told.cap_count == message.cap_count
            &&& forall|c: int|
                0 <= c < message.cap_count ==> #[trigger] told.caps@[c] == message.caps@[c].handle
            &&& told.header.invocation_id == asked.id
            &&& told.header.epoch == asked.epoch
            &&& told.header.sender_domain_id == asked.origin_domain_id
            &&& told.header.sender_scope_id == asked.origin_scope_id
            &&& told.header.parent_invocation_id == asked.parent_id
            &&& told.header.facet == asked.facet
            &&& told.header.sent_ns == asked.admitted_ns
        }),
{
    let d = ctx.domain as int;
    let k = m.queues[e][0] as int;
    claiming_is_sound(m, d, e);
    let claimed = m.receiver_claimed(d, e);
    assert(m.queues[e].len() > 0);
    assert(m.queues[e][0] < MAX_MESSAGES);
    assert(crate::state::message_ok(m.messages[k]));
    let i = m.messages[k].invocation;
    let o = ObjRef {
        kind: ObjKind::Invocation,
        index: i,
        generation: m.invocations[i as int].generation,
    };
    minting_keeps_messages(claimed, d, o, 0xFB, m.invocations[i as int].facet);
    let held = claimed.ticketed(d, k);
    assert(held.invocations[i as int].refs == held.invocations[i as int].refs);
    assert(told == held.delivery(k));
    crate::bytes::array_of_holds::<u64, MAX_MESSAGE_CAPS>(
        Seq::new(
            MAX_MESSAGE_CAPS as nat,
            |c: int|
                if c < m.messages[k].cap_count {
                    m.messages[k].caps@[c].handle
                } else {
                    0
                },
        ),
    );
}

/// The ticket a receiver is given names the obligation of its message, with every
/// right to answer for it and no right to send under it.
pub proof fn a_ticket_names_its_obligation(
    m: MachineModel,
    ctx: Ctx,
    now: u64,
    e: int,
    ticket: u64,
    told: crate::abi::request::ReceiveResult,
)
    requires
        m.wf(),
        caller_ok(ctx),
        0 <= e < MAX_ENDPOINTS,
        m.endpoint_cap(ctx, crate::abi::right::ENDPOINT_RECEIVE, now) matches Ok(cap)
            && cap.object.index == e,
        m.reception(ctx, now).1 == Ok::<Received, Status>(Received::Message(ticket, told)),
    ensures
        ({
            let after = m.reception(ctx, now).0;
            let i = m.messages[m.queues[e][0] as int].invocation;
            let slot = ctx.domain * MAX_CAPS + ticket as int % 0x1_0000_0000;
            let grant = after.grants[after.caps[slot].grant as int];
            &&& ticket as int % 0x1_0000_0000 < MAX_CAPS
            &&& !m.caps[slot].live
            &&& after.caps[slot].live
            &&& after.caps[slot].generation == ticket as int / 0x1_0000_0000
            &&& after.caps[slot].object.kind == ObjKind::Invocation
            &&& after.caps[slot].object.index == i
            &&& after.caps[slot].object.generation == m.invocations[i as int].generation
            &&& grant.rights == 0xFB
            &&& grant.object == after.caps[slot].object
        }),
{
    let d = ctx.domain as int;
    let k = m.queues[e][0] as int;
    claiming_is_sound(m, d, e);
    let claimed = m.receiver_claimed(d, e);
    assert(m.queues[e].len() > 0);
    let i = m.messages[k].invocation;
    let o = ObjRef {
        kind: ObjKind::Invocation,
        index: i,
        generation: m.invocations[i as int].generation,
    };
    crate::laws::authority::a_new_capability_is_what_was_asked_for(
        claimed,
        d,
        NO_GRANT,
        o,
        0xFB,
        0,
        None,
        m.invocations[i as int].facet,
    );
}

/// An endpoint has one receiver: a domain that is not the one never takes a
/// message or waits there.
pub proof fn an_endpoint_has_one_receiver(m: MachineModel, ctx: Ctx, now: u64, e: int)
    requires
        m.endpoint_cap(ctx, crate::abi::right::ENDPOINT_RECEIVE, now) matches Ok(cap)
            && cap.object.index == e,
        m.endpoints[e].receiver_domain != NO_DOMAIN,
        m.endpoints[e].receiver_domain != ctx.domain,
    ensures
        m.reception(ctx, now).0 == m,
        m.reception(ctx, now).1 is Err,
{
}

/// A reply reaches the caller as it was given: the caller that waits is woken, and
/// what it is told is the bytes, the length and the result of the reply. The
/// obligation counts as answered, so that a second reply is refused.
pub proof fn a_reply_reaches_its_caller(m: MachineModel, ctx: Ctx, request: ReplyRequest, now: u64)
    requires
        m.wf(),
        ctx_ok(ctx, ObjKind::Invocation),
        m.reply_fault(ctx, request) is None,
        m.invocations[ctx.cap.object.index as int].state != State::Empty,
    ensures
        ({
            let i = ctx.cap.object.index as int;
            let after = m.replied(ctx, request);
            let told = after.reply_of(i);
            let t = m.invocations[i].waiter->0 as int;
            let wait = Wait::Reply(i as u16, m.invocations[i].generation);
            &&& told.payload == request.payload
            &&& told.payload_len == request.payload_len
            &&& told.result == request.result
            &&& told.cap_count == request.cap_count
            &&& told.invocation_id == m.invocations[i].id
            &&& after.invocations[i].replied
            &&& after.invocations[i].waiter == m.invocations[i].waiter
            &&& m.threads[t].state == ThreadState::Blocked && m.threads[t].wait == wait ==> {
                &&& after.threads[t].state == ThreadState::Ready
                &&& after.threads[t].wait == Wait::Nothing
                &&& after.threads[t].wake_status == Status::Success
            }
            &&& forall|u: int|
                0 <= u < MAX_THREADS && u != t ==> #[trigger] after.threads[u] == m.threads[u]
            &&& after.reply_fault(ctx, request) == Some(Status::AlreadyResolved)
            &&& forall|j: int|
                0 <= j < request.cap_count ==> ({
                    let handle = (#[trigger] told.caps@[j]) as int;
                    let from = ctx.domain * MAX_CAPS + request.caps@[j] as int % 0x1_0000_0000;
                    let to = m.invocations[i].origin_domain * MAX_CAPS + handle % 0x1_0000_0000;
                    &&& handle % 0x1_0000_0000 < MAX_CAPS
                    &&& !m.caps[to].live
                    &&& after.caps[to].live
                    &&& after.caps[to].generation == handle / 0x1_0000_0000
                    &&& after.caps[to].object == m.caps[from].object
                    &&& after.caps[to].grant == m.caps[from].grant
                })
        }),
{
    let i = ctx.cap.object.index as int;
    let giver = ctx.domain as int;
    let n = request.cap_count as nat;
    let caller = m.invocations[i].origin_domain as int;
    assert(crate::state::invocation_ok(m.invocations[i]));
    replies_are_sound(m, giver, caller, request, ctx.now, 0);
    placing_moves_authority(m, m.caps, giver, request.caps@, caller, n, 0);
    let given = m.placed(m.caps, giver, request.caps@, caller, n);
    assert forall|j: int| 0 <= j < n implies slot_of(#[trigger] request.caps@[j]) < MAX_CAPS by {
        assert(cap_lookup(m.caps, giver, request.caps@[j]) is Some);
    }
    giving_up_moves_authority(given, giver, request.caps@, request.cap_ops@, n);
    let done = given.given_up(giver, request.caps@, request.cap_ops@, n);
    authority_moves_on(m, given, done);
    assert(done.invocations[i].refs == done.invocations[i].refs);
    let handles = crate::api::obligations::handles_of(
        m.placements(m.caps, giver, request.caps@, caller, n as int),
        n as int,
    );
    crate::bytes::array_of_holds::<u64, MAX_MESSAGE_CAPS>(handles);
    let after = m.replied(ctx, request);
    assert(after.caps == done.caps);
    assert forall|j: int| 0 <= j < request.cap_count implies ({
        let handle = (#[trigger] after.reply_of(i).caps@[j]) as int;
        let from = ctx.domain * MAX_CAPS + request.caps@[j] as int % 0x1_0000_0000;
        let to = m.invocations[i].origin_domain * MAX_CAPS + handle % 0x1_0000_0000;
        &&& handle % 0x1_0000_0000 < MAX_CAPS
        &&& !m.caps[to].live
        &&& after.caps[to].live
        &&& after.caps[to].generation == handle / 0x1_0000_0000
        &&& after.caps[to].object == m.caps[from].object
        &&& after.caps[to].grant == m.caps[from].grant
    }) by {
        let put = m.placed_at(m.caps, giver, request.caps@, caller, j as nat);
        assert(arrived(m.caps, given.caps, m.caps, giver, request.caps@, caller, put, j));
        let at = cap_at(caller, put.slot as int);
        assert forall|h: int| 0 <= h < n && request.cap_ops@[h] == cap_op::MOVE implies cap_at(
            giver,
            slot_of(#[trigger] request.caps@[h]) as int,
        ) != at by {
            assert(cap_lookup(m.caps, giver, request.caps@[h]) is Some);
        }
        assert(done.caps[at] == given.caps[at]);
        assert(after.reply_of(i).caps@[j] == put.handle);
        assert(cap_lookup(m.caps, giver, request.caps@[j]) is Some);
    }
}

/// What the capabilities of a reply that is accepted look like.
proof fn replies_are_sound(
    m: MachineModel,
    giver: int,
    caller: int,
    request: ReplyRequest,
    now: u64,
    i: int,
)
    requires
        held_ok(m),
        0 <= giver < MAX_DOMAINS,
        0 <= i,
        m.reply_batch_fault(giver, caller, request, now, i) is None,
    ensures
        forall|j: int|
            i <= j < request.cap_count ==> (#[trigger] cap_lookup(
                m.caps,
                giver,
                request.caps@[j],
            )) is Some && cap_ok(cap_lookup(m.caps, giver, request.caps@[j])->0),
        i < request.cap_count ==> count_free(m.caps, caller, 0) >= request.cap_count,
    decreases request.cap_count - i,
{
    if i < request.cap_count {
        replies_are_sound(m, giver, caller, request, now, i + 1);
    }
}

/// An effect is let through once, and only while nothing bars it: the lineage of
/// the capability it was asked under is open and so is the scope it was asked for.
/// What is let through is counted in that scope and holds its closing time in the
/// scope of the service; an effect that is barred is never let through later.
pub proof fn an_effect_is_let_through_once(
    m: MachineModel,
    ctx: Ctx,
    request: crate::abi::request::EffectRequest,
)
    requires
        m.wf(),
        ctx_ok(ctx, ObjKind::Invocation),
        m.effect_fault(ctx, request) is None,
    ensures
        ({
            let i = ctx.cap.object.index as int;
            let asked = m.invocations[i];
            let origin = asked.origin_scope as int;
            let open = m.lineage_of(asked.grant, ctx.now) == Status::Success
                && m.scopes[origin].state == crate::scope::State::Open;
            &&& asked.effect == Effect::Unasked
            &&& asked.state != State::Resolved
            &&& open == (m.effect_barrier(i, ctx.now) == Status::Success)
            &&& ({
                let after = m.effect_refused(ctx, m.effect_barrier(i, ctx.now));
                &&& after.invocations[i].effect == Effect::Refused
                &&& after.effect_fault(ctx, request) == Some(Status::AlreadyResolved)
                &&& after.scopes == m.scopes
            })
            &&& open && m.can_begin(ctx, request) ==> {
                let after = m.effect_begun(ctx, request);
                let service = m.domains[ctx.domain as int].owner_scope as int;
                let held = m.scopes[service];
                &&& held.closure_used_ns + held.closure_reserved_ns + request.closure_reserve_ns
                    <= held.limits.closure_reserve_ns
                &&& after.invocations[i].effect == Effect::Admitted
                &&& after.invocations[i].closure_service == service
                &&& after.invocations[i].closure_reserved_ns == request.closure_reserve_ns
                &&& after.effect_fault(ctx, request) == Some(Status::AlreadyResolved)
                &&& after.scopes[service].closure_reserved_ns == held.closure_reserved_ns
                    + request.closure_reserve_ns
                &&& m.scopes[origin].effects_pending < u32::MAX
                    ==> after.scopes[origin].effects_pending == m.scopes[origin].effects_pending
                    + 1
                &&& forall|k: int|
                    0 <= k < MAX_SCOPES && k != service && k != origin
                        ==> #[trigger] after.scopes[k] == m.scopes[k]
            }
        }),
{
    let i = ctx.cap.object.index as int;
    assert(crate::state::invocation_ok(m.invocations[i]));
    assert(crate::state::domain_ok(m.domains[ctx.domain as int]));
}

/// Discharging an obligation tells its caller the outcome, and an obligation is
/// discharged once: afterwards its record is free or counts as resolved.
pub proof fn an_obligation_is_discharged_once(m: MachineModel, ctx: Ctx, request: ResolveRequest)
    requires
        m.wf(),
        ctx_ok(ctx, ObjKind::Invocation),
        m.resolve_fault(ctx, request) is None,
        m.invocations[ctx.cap.object.index as int].state != State::Empty,
    ensures
        ({
            let i = ctx.cap.object.index as int;
            let asked = m.invocations[i];
            let after = m.invocation_resolved(ctx, request);
            let t = asked.waiter->0 as int;
            let wait = Wait::Reply(i as u16, asked.generation);
            &&& after.invocations[i].state == if asked.refs == 0 {
                State::Empty
            } else {
                State::Resolved
            }
            &&& asked.refs > 0 ==> after.invocations[i].outcome == request.outcome
            &&& asked.refs > 0 ==> after.resolve_fault(ctx, request) == Some(
                Status::AlreadyResolved,
            )
            &&& asked.waiter is Some && m.threads[t].state == ThreadState::Blocked
                && m.threads[t].wait == wait ==> {
                &&& after.threads[t].state == ThreadState::Ready
                &&& after.threads[t].wake_status == if request.outcome
                    == crate::abi::outcome::COMMITTED {
                    Status::Success
                } else if request.outcome == crate::abi::outcome::UNKNOWN {
                    Status::Pending
                } else {
                    Status::Cancelled
                }
            }
        }),
{
    let i = ctx.cap.object.index as int;
    assert(crate::state::invocation_ok(m.invocations[i]));
    let told = m.with_invocation(
        i,
        Invocation { outcome: request.outcome, ..m.invocations[i] },
    ).wake_waiter(
        i,
        crate::api::obligations::outcome_status(request.outcome),
        WakeHint::Sync,
    );
    assert forall|x: MachineModel, g: u16| (#[trigger] x.collect_grant(
        g,
        MAX_DERIVE_DEPTH as nat,
    )).threads == x.threads && x.collect_grant(g, MAX_DERIVE_DEPTH as nat).invocations.len()
        == x.invocations.len() by {
        collecting_moves_authority(x, g, MAX_DERIVE_DEPTH as nat);
    }
    assert(told.invocations[i] == (Invocation { outcome: request.outcome, ..m.invocations[i] }));
}


/// A caller sleeps for the reply to its own message and no other.
pub proof fn a_caller_sleeps_for_its_own_reply(m: MachineModel, ctx: Ctx, request: SendRequest)
    requires
        m.wf(),
        caller_ok(ctx),
        m.call_fault(ctx, request) is None,
    ensures
        ({
            let cap = m.endpoint_cap(ctx, crate::abi::right::ENDPOINT_SEND, ctx.now)->Ok_0;
            let full = Ctx { cap, ..ctx };
            let made = m.admission(full, request, message_kind::REQUEST);
            let after = m.call_begun(ctx, request);
            let caller = after.threads[ctx.thread as int];
            &&& ctx.flags & crate::abi::flag::NONBLOCKING == 0
            &&& caller.state == ThreadState::Blocked
            &&& caller.wait == Wait::Reply(made.invocation, made.generation)
            &&& caller.wait_deadline_ns == ctx.deadline
        }),
{
    let cap = m.endpoint_cap(ctx, crate::abi::right::ENDPOINT_SEND, ctx.now)->Ok_0;
    let full = Ctx { cap, ..ctx };
    let e = cap.object.index as int;
    crate::laws::authority::a_handle_permits_what_its_entry_says(
        m,
        ctx.domain as int,
        ctx.handle,
        crate::abi::object_type::ENDPOINT,
        crate::abi::right::ENDPOINT_SEND,
        ctx.now,
    );
    assert(ctx_ok(full, ObjKind::Endpoint));
    preparing_moves_authority(m, full, request, message_kind::REQUEST);
    assert forall|x: MachineModel, hint: WakeHint|
        0 <= e < x.endpoints.len() && x.threads.len() == MAX_THREADS implies (
    #[trigger] x.wake_receiver(e, hint, 0)).threads.len() == MAX_THREADS by {
        waking_wakes_only(x, e, hint, 0);
    }
    assert forall|x: MachineModel, l: int| x.threads.len() == MAX_THREADS implies (
    #[trigger] x.wake_reader(l)).threads.len() == MAX_THREADS by {
        crate::laws::domains::the_first_that_waits_is_woken(
            x.threads,
            Wait::Log(l as u16, x.logs[l].generation),
            0,
        );
    }
    let ready = m.prepared(full, request, message_kind::REQUEST);
    assert(ready.threads.len() == MAX_THREADS);
    let sent = m.admitted(full, request, message_kind::REQUEST, Some(ctx.thread as u16));
    assert(sent.threads.len() == MAX_THREADS);
}

proof fn message_is_free(messages: Seq<crate::ipc::Message>, from: int)
    requires
        0 <= from <= MAX_MESSAGES,
    ensures
        ({
            let k = first_message(messages, from);
            &&& from <= k <= MAX_MESSAGES
            &&& k < MAX_MESSAGES ==> !messages[k].used
        }),
    decreases MAX_MESSAGES - from,
{
    if from < MAX_MESSAGES && messages[from].used {
        message_is_free(messages, from + 1);
    }
}

proof fn invocation_is_free(invocations: Seq<Invocation>, from: int)
    requires
        0 <= from <= MAX_INVOCATIONS,
    ensures
        ({
            let i = first_invocation(invocations, from);
            &&& from <= i <= MAX_INVOCATIONS
            &&& i < MAX_INVOCATIONS ==> invocations[i].state == State::Empty
        }),
    decreases MAX_INVOCATIONS - from,
{
    if from < MAX_INVOCATIONS && invocations[from].state != State::Empty {
        invocation_is_free(invocations, from + 1);
    }
}

} // verus!
