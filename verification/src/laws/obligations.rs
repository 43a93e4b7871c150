//! What is owed: who works for whom, what a withdrawal takes away, and what the
//! death of a domain means to those it dealt with.

use vstd::prelude::*;

use crate::abi::status::Status;
use crate::abi::outcome;
use crate::api::{ctx_ok, descends, Ctx};
use crate::bytes::{le, le_bytes, le_bytes_len, written_number_reads_back};
use crate::ipc::{Cancel, Effect, Endpoint, Invocation, State};
use crate::laws::how_many;
use crate::laws::scopes::{a_perimeter_is_what_leads_up_to_it, lies_in};
use crate::limits::{
    MAX_DERIVE_DEPTH, MAX_ENDPOINTS, MAX_INLINE_PAYLOAD, MAX_INVOCATIONS, MAX_MAPS, MAX_MESSAGES,
    MAX_SCOPES, MAX_THREADS,
};
use crate::obj::{ObjKind, NO_GRANT};
use crate::scope::State as ScopeState;
use crate::state::{FaultRecord, MachineModel, Thread, ThreadState, Wait};
use crate::tables::unlinked;

verus! {

/// A worker runs on the account of the scope it serves while that one is open, and
/// of its own service's otherwise; it then counts as recovery. Unbinding puts it
/// back where it belongs.
pub proof fn a_worker_runs_for_whom_it_serves(m: MachineModel, ctx: Ctx)
    requires
        m.wf(),
        ctx_ok(ctx, ObjKind::Invocation),
        m.bind_fault(ctx) is None,
    ensures
        ({
            let i = ctx.cap.object.index as int;
            let t = ctx.thread as int;
            let origin = m.invocations[i].origin_scope;
            let open = m.scopes[origin as int].state == ScopeState::Open;
            let after = m.worker_bound(ctx);
            let payer = if open {
                origin
            } else {
                m.domains[ctx.domain as int].owner_scope
            };
            &&& m.invocations[i].state != State::Resolved
            &&& m.threads[t].bound is None
            &&& after.threads[t] == (Thread {
                effective_scope: payer,
                recovery: !open,
                bound: Some((i as u16, m.invocations[i].generation)),
                parallelism_scope: Some(payer),
                ..m.threads[t]
            })
            &&& m.invocations[i].refs < u32::MAX ==> after.invocations[i].refs
                == m.invocations[i].refs + 1
            &&& forall|u: int|
                0 <= u < MAX_THREADS && u != t ==> #[trigger] after.threads[u] == m.threads[u]
            &&& ({
                let back = after.worker_unbound(t, i, m.invocations[i].generation);
                &&& back.threads[t].bound is None
                &&& !back.threads[t].recovery
                &&& back.threads[t].effective_scope == m.threads[t].owner_scope
                &&& back.threads[t].parallelism_scope == Some(m.threads[t].owner_scope)
                &&& m.invocations[i].refs < u32::MAX ==> back.invocations[i].refs
                    == m.invocations[i].refs
            })
        }),
{
}

/// Taking a message off a queue takes that one off and leaves the others in their
/// order.
pub proof fn the_others_keep_their_order(queue: Seq<u16>, k: u16, p: int)
    requires
        0 <= p < queue.len(),
        queue[p] == k,
        forall|q: int| 0 <= q < queue.len() && q != p ==> queue[q] != k,
    ensures
        ({
            let after = unlinked(queue, k);
            &&& after.len() == queue.len() - 1
            &&& !after.contains(k)
            &&& forall|q: int| 0 <= q < p ==> #[trigger] after[q] == queue[q]
            &&& forall|q: int| p <= q < after.len() ==> #[trigger] after[q] == queue[q + 1]
        }),
{
    queue.index_of_first_ensures(k);
    assert(queue.contains(k));
    let at = queue.index_of_first(k)->0;
    assert(queue[at] == k);
    assert(at == p);
}

/// A message waits for its receiver and was sent for a scope of the perimeter.
pub proof fn what_is_withdrawn_was_not_received(m: MachineModel, k: int, root: int)
    requires
        m.wf(),
        0 <= k < MAX_MESSAGES,
    ensures
        m.is_undelivered(k, root) <==> {
            let asked = m.invocations[m.messages[k].invocation as int];
            asked.state == State::Admitted && lies_in(m.scopes, root, asked.origin_scope as int)
        },
{
    assert(crate::state::message_ok(m.messages[k]));
    let i = m.messages[k].invocation as int;
    assert(crate::state::invocation_ok(m.invocations[i]));
    a_perimeter_is_what_leads_up_to_it(m.scopes, root, m.invocations[i].origin_scope as int);
}

/// What the death of a domain means to an obligation: one that the dead domain was
/// to discharge ends unknown, not undone, and its caller is told that its peer is
/// dead; one that it asked for learns that its origin is dead and has nobody
/// waiting any more. Any other is as it was.
pub proof fn a_death_is_told(m: MachineModel, i: int, domain: int, generation: u32, now: u64)
    requires
        m.wf(),
        0 <= i < MAX_INVOCATIONS,
    ensures
        ({
            let owed = m.invocations[i];
            let after = m.bereaved(i, domain, generation, now);
            let open = owed.state != State::Empty && owed.state != State::Resolved;
            let sent = owed.origin_domain == domain && owed.origin_domain_generation == generation;
            let received = owed.state == State::Delivered && owed.receiver_domain == domain;
            &&& !open || !sent && !received ==> after == m
            &&& open && sent && !received ==> {
                &&& after.invocations[i] == (Invocation {
                    cancel: Cancel::OriginDead,
                    waiter: None,
                    ..owed
                })
                &&& after == m.with_invocation(i, after.invocations[i])
            }
            &&& open && received && owed.refs > 0 ==> {
                &&& after.invocations[i].state == State::Resolved
                &&& after.invocations[i].outcome == outcome::UNKNOWN
            }
            &&& open && received && !sent && owed.waiter is Some ==> {
                let t = owed.waiter->0 as int;
                let wait = Wait::Reply(i as u16, owed.generation);
                m.threads[t].state == ThreadState::Blocked && m.threads[t].wait == wait ==> {
                    &&& after.threads[t].state == ThreadState::Ready
                    &&& after.threads[t].wake_status == Status::PeerDead
                }
            }
        }),
{
    let owed = m.invocations[i];
    assert(crate::state::invocation_ok(owed));
    let sent = owed.origin_domain == domain && owed.origin_domain_generation == generation;
    if owed.state == State::Delivered && owed.receiver_domain == domain {
        let told = if sent {
            m.with_invocation(
                i,
                Invocation { cancel: Cancel::OriginDead, waiter: None, ..owed },
            )
        } else {
            m
        };
        let ended = told.with_invocation(
            i,
            Invocation { outcome: outcome::UNKNOWN, ..told.invocations[i] },
        );
        let woken = ended.wake_waiter(i, Status::PeerDead, crate::state::WakeHint::Any);
        assert(woken.invocations == ended.invocations);
        discharging_tells_nobody(woken, i, now);
        assert(m.bereaved(i, domain, generation, now) == woken.release_invocation(i, now));
    }
}

proof fn discharging_tells_nobody(m: MachineModel, i: int, now: u64)
    requires
        0 <= i < m.invocations.len(),
        m.invocations[i].state != State::Empty,
    ensures
        ({
            let after = m.release_invocation(i, now);
            &&& after.threads == m.threads
            &&& m.invocations[i].refs > 0 ==> after.invocations[i].state == State::Resolved
                && after.invocations[i].outcome == m.invocations[i].outcome
        }),
{
    assert forall|x: MachineModel, g: u16| (#[trigger] x.collect_grant(
        g,
        MAX_DERIVE_DEPTH as nat,
    )).threads == x.threads && x.collect_grant(g, MAX_DERIVE_DEPTH as nat).invocations
        == x.invocations by {
        collecting_keeps_what_is_owed(x, g, MAX_DERIVE_DEPTH as nat);
    }
}

proof fn collecting_keeps_what_is_owed(m: MachineModel, g: u16, steps: nat)
    ensures
        m.collect_grant(g, steps).threads == m.threads,
        m.collect_grant(g, steps).invocations == m.invocations,
    decreases steps,
{
    if steps > 0 && g != NO_GRANT && m.is_idle_grant(g as int) {
        collecting_keeps_what_is_owed(
            m.free_grant(g as int),
            m.grants[g as int].parent,
            (steps - 1) as nat,
        );
    }
}

/// The endpoints that the dead domain received on accept nothing more, and no
/// other endpoint changes.
pub proof fn the_receivers_of_the_dead_are_shut(m: MachineModel, domain: int, generation: u32)
    requires
        m.wf(),
    ensures
        ({
            let after = m.receivers_shut(domain, generation);
            &&& after == (MachineModel { endpoints: after.endpoints, ..m })
            &&& forall|e: int|
                0 <= e < MAX_ENDPOINTS ==> {
                    let x = m.endpoints[e];
                    if x.used && x.receiver_domain == domain && x.receiver_generation
                        == generation {
                        &&& #[trigger] after.endpoints[e] == (Endpoint { open: false, ..x })
                        &&& !after.accepts(e)
                    } else {
                        after.endpoints[e] == x
                    }
                }
        }),
{
}

/// A discharged obligation gives back what it held: it is no longer counted in the
/// scope it was for, an effect it had begun is no longer counted either and its
/// closing time is free again, and it charges nothing more.
pub proof fn a_discharge_gives_back(m: MachineModel, i: int, now: u64)
    requires
        m.wf(),
        0 <= i < MAX_INVOCATIONS,
        m.invocations[i].state != State::Empty,
        m.invocations[i].charged_bytes == 0,
        m.invocations[i].grant == NO_GRANT,
    ensures
        ({
            let held = m.invocations[i];
            let origin = held.origin_scope as int;
            let service = held.closure_service as int;
            let begun = held.effect == Effect::Admitted;
            let after = m.release_invocation(i, now);
            let s = m.scopes[origin];
            &&& s.invocations_pending > 0 ==> after.scopes[origin].invocations_pending
                == s.invocations_pending - 1
            &&& begun && s.effects_pending > 0 ==> after.scopes[origin].effects_pending
                == s.effects_pending - 1
            &&& !begun ==> after.scopes[origin].effects_pending == s.effects_pending
            &&& after.scopes[origin].last_progress_ns == now
            &&& begun && m.scopes[service].closure_reserved_ns >= held.closure_reserved_ns
                ==> after.scopes[service].closure_reserved_ns
                == m.scopes[service].closure_reserved_ns - held.closure_reserved_ns
            &&& after.invocations[i].state == if held.refs == 0 {
                State::Empty
            } else {
                State::Resolved
            }
            &&& after.invocations[i].charged_bytes == 0
            &&& forall|k: int|
                0 <= k < MAX_SCOPES && k != origin && (k != service || !begun)
                    ==> #[trigger] after.scopes[k] == m.scopes[k]
            &&& forall|k: int|
                0 <= k < MAX_INVOCATIONS && k != i ==> #[trigger] after.invocations[k]
                    == m.invocations[k]
        }),
{
    assert(crate::state::invocation_ok(m.invocations[i]));
}

/// A fault report tells, word after word, which domain and thread failed, in which
/// life of the domain, by what trap, and where.
pub proof fn a_fault_report_tells_what_happened(
    m: MachineModel,
    domain: int,
    t: int,
    record: FaultRecord,
)
    ensures
        ({
            let message = m.fault_message(domain, t, record);
            let s = message.payload@;
            &&& message.payload_len == 72
            &&& message.cap_count == 0
            &&& s.len() == MAX_INLINE_PAYLOAD
            &&& le(s, 0, 8) == m.domains[domain].id
            &&& le(s, 8, 8) == m.threads[t].id
            &&& le(s, 16, 8) == m.domains[domain].generation
            &&& le(s, 24, 8) == record.vector
            &&& le(s, 32, 8) == record.error_code
            &&& le(s, 40, 8) == record.rip
            &&& le(s, 48, 8) == record.rsp
            &&& le(s, 56, 8) == record.cr2
            &&& le(s, 64, 8) == 1
            &&& forall|b: int| 72 <= b < MAX_INLINE_PAYLOAD ==> #[trigger] s[b] == 0
        }),
{
    let report = m.fault_report(domain, t, record);
    let s = report.payload();
    report_words(report);
    crate::bytes::array_of_holds::<u8, MAX_INLINE_PAYLOAD>(s);
    assert(m.fault_message(domain, t, record).payload@ == s);
}

proof fn report_words(report: crate::api::closing::FaultReport)
    ensures
        ({
            let s = report.payload();
            &&& s.len() == MAX_INLINE_PAYLOAD
            &&& le(s, 0, 8) == report.domain_id
            &&& le(s, 8, 8) == report.thread_id
            &&& le(s, 16, 8) == report.generation
            &&& le(s, 24, 8) == report.vector
            &&& le(s, 32, 8) == report.error_code
            &&& le(s, 40, 8) == report.rip
            &&& le(s, 48, 8) == report.rsp
            &&& le(s, 56, 8) == report.address
            &&& le(s, 64, 8) == report.class
            &&& forall|b: int| 72 <= b < MAX_INLINE_PAYLOAD ==> #[trigger] s[b] == 0
        }),
{
    let s = report.payload();
    assert forall|v: nat| (#[trigger] le_bytes(v, 8)).len() == 8 by {
        le_bytes_len(v, 8);
    }
    word_reads_back(s, 0, report.domain_id as nat);
    word_reads_back(s, 8, report.thread_id as nat);
    word_reads_back(s, 16, report.generation as nat);
    word_reads_back(s, 24, report.vector as nat);
    word_reads_back(s, 32, report.error_code as nat);
    word_reads_back(s, 40, report.rip as nat);
    word_reads_back(s, 48, report.rsp as nat);
    word_reads_back(s, 56, report.address as nat);
    word_reads_back(s, 64, report.class as nat);
}

pub(crate) proof fn word_reads_back(s: Seq<u8>, at: int, value: nat)
    requires
        0 <= at,
        at + 8 <= s.len(),
        value <= u64::MAX,
        s.subrange(at, at + 8) =~= le_bytes(value, 8),
    ensures
        le(s, at, 8) == value,
{
    written_number_reads_back(s, at, value, 8);
    assert(vstd::arithmetic::power::pow(256, 8) == 0x1_0000_0000_0000_0000) by {
        reveal_with_fuel(vstd::arithmetic::power::pow, 9);
    }
    vstd::arithmetic::div_mod::lemma_small_mod(value, 0x1_0000_0000_0000_0000);
}

/// What a lineage still holds is counted: the obligations that came through it and
/// are owed, those among them with an effect begun, and the mappings made with it.
pub proof fn a_lineage_report_counts_what_is_left(m: MachineModel, root: u16, now: u64)
    requires
        m.wf(),
        root < crate::limits::MAX_GRANTS,
    ensures
        ({
            let report = m.lineage_report(root, now);
            let steps = (MAX_DERIVE_DEPTH + 2) as nat;
            &&& report.invocations_pending == how_many(owed_through(m, root), MAX_INVOCATIONS as int)
            &&& report.effects_pending == how_many(
                |i: int| owed_through(m, root)(i) && m.invocations[i].effect == Effect::Admitted,
                MAX_INVOCATIONS as int,
            )
            &&& report.maps_pending == how_many(
                |i: int| m.maps[i].used && descends(m.grants, root, m.maps[i].grant, steps),
                MAX_MAPS as int,
            )
            &&& report.token == m.grants[root as int].id
        }),
{
    lineage_is_counted(m, root, MAX_INVOCATIONS as int, MAX_MAPS as int);
}

/// An obligation is owed and came through a lineage.
pub open spec fn owed_through(m: MachineModel, root: u16) -> spec_fn(int) -> bool {
    |i: int|
        m.invocations[i].state != State::Empty && m.invocations[i].state != State::Resolved
            && descends(
            m.grants,
            root,
            m.invocations[i].grant,
            (MAX_DERIVE_DEPTH + 2) as nat,
        )
}

proof fn lineage_is_counted(m: MachineModel, root: u16, n: int, k: int)
    requires
        0 <= n,
        0 <= k,
    ensures
        m.lineage_owed(root, n) == how_many(owed_through(m, root), n),
        m.lineage_owed(root, n) <= n,
        m.lineage_effects(root, n) == how_many(
            |i: int| owed_through(m, root)(i) && m.invocations[i].effect == Effect::Admitted,
            n,
        ),
        m.lineage_effects(root, n) <= n,
        m.lineage_maps(root, k) == how_many(
            |i: int|
                m.maps[i].used && descends(
                    m.grants,
                    root,
                    m.maps[i].grant,
                    (MAX_DERIVE_DEPTH + 2) as nat,
                ),
            k,
        ),
        m.lineage_maps(root, k) <= k,
    decreases n + k,
{
    if n > 0 {
        lineage_is_counted(m, root, n - 1, k);
    } else if k > 0 {
        lineage_is_counted(m, root, n, k - 1);
    }
}

} // verus!
