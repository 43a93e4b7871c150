//! Scopes: who answers for what is charged, what a barrier closes, and when a
//! perimeter has come to rest.

use vstd::prelude::*;

use crate::abi::request::{ScopeCreateRequest, ScopeLimits};
use crate::api::scopeops::limits_of;
use crate::api::{ctx_ok, Ctx};
use crate::limits::{CPU_WINDOW_NS, MAX_SCOPES, MAX_SCOPE_DEPTH, MAX_THREADS};
use crate::obj::ObjKind;
use crate::scope::{
    charged, fenced, has_room, has_slot, parallelised, pending_among, pending_spec, quiesced,
    released, scopes_wf, within, Resource, Scope, State,
};
use crate::state::{MachineModel, ThreadState};

verus! {

/// The scope `n` steps above `s`, where there is one.
pub open spec fn above(scopes: Seq<Scope>, s: int, n: nat) -> Option<int>
    decreases n,
{
    if n == 0 {
        Some(s)
    } else {
        match scopes[s].parent {
            Some(p) => above(scopes, p as int, (n - 1) as nat),
            None => None,
        }
    }
}

/// `s` is `root`, or `root` is met on the way up from it.
pub open spec fn lies_in(scopes: Seq<Scope>, root: int, s: int) -> bool {
    exists|n: nat| #[trigger] above(scopes, s, n) == Some(root)
}

/// What a perimeter is: the scope and everything whose way up leads through it.
pub proof fn a_perimeter_is_what_leads_up_to_it(scopes: Seq<Scope>, root: int, s: int)
    requires
        scopes_wf(scopes),
        0 <= s < MAX_SCOPES,
    ensures
        within(scopes, root, s) == lies_in(scopes, root, s),
    decreases scopes[s].depth,
{
    let parent = scopes[s].parent;
    if s == root {
        assert(above(scopes, s, 0) == Some(root));
    } else if let Some(p) = parent {
        a_perimeter_is_what_leads_up_to_it(scopes, root, p as int);
        if lies_in(scopes, root, p as int) {
            let n = choose|n: nat| #[trigger] above(scopes, p as int, n) == Some(root);
            assert(above(scopes, s, n + 1) == Some(root));
        }
        if lies_in(scopes, root, s) {
            let n = choose|n: nat| #[trigger] above(scopes, s, n) == Some(root);
            assert(n > 0);
            assert(above(scopes, p as int, (n - 1) as nat) == Some(root));
        }
    } else {
        assert forall|n: nat| #[trigger] above(scopes, s, n) != Some(root) by {
            reveal_with_fuel(above, 2);
        }
    }
}

proof fn perimeters_lead_up(scopes: Seq<Scope>, s: int)
    requires
        scopes_wf(scopes),
        0 <= s < MAX_SCOPES,
    ensures
        forall|i: int| #[trigger] within(scopes, i, s) == lies_in(scopes, i, s),
{
    assert forall|i: int| #[trigger] within(scopes, i, s) == lies_in(scopes, i, s) by {
        a_perimeter_is_what_leads_up_to_it(scopes, i, s);
    }
}

/// How much of a resource a scope has used.
pub open spec fn used(s: Scope, r: Resource) -> int {
    match r {
        Resource::MemoryPages => s.memory_pages as int,
        Resource::Metadata => s.metadata as int,
        Resource::QueueBytes => s.queue_bytes as int,
    }
}

/// How much of a resource a scope may use.
pub open spec fn ceiling(s: Scope, r: Resource) -> int {
    match r {
        Resource::MemoryPages => s.limits.memory_pages as int,
        Resource::Metadata => s.limits.metadata_objects as int,
        Resource::QueueBytes => s.limits.queue_bytes as int,
    }
}

/// The scopes differ in nothing but what they have used.
pub open spec fn same_but_used(a: Scope, b: Scope) -> bool {
    b == (Scope {
        memory_pages: b.memory_pages,
        metadata: b.metadata,
        queue_bytes: b.queue_bytes,
        ..a
    })
}

/// There is room for more where the scope and every scope above it stays under
/// its ceiling.
pub proof fn room_is_asked_of_every_scope_above(scopes: Seq<Scope>, s: int, r: Resource, n: int)
    requires
        scopes_wf(scopes),
        0 <= s < MAX_SCOPES,
    ensures
        has_room(scopes, s, r, n) <==> forall|i: int|
            0 <= i < MAX_SCOPES && #[trigger] lies_in(scopes, i, s) ==> used(scopes[i], r) + n
                <= ceiling(scopes[i], r),
    decreases scopes[s].depth,
{
    perimeters_lead_up(scopes, s);
    assert(within(scopes, s, s));
    if let Some(p) = scopes[s].parent {
        room_is_asked_of_every_scope_above(scopes, p as int, r, n);
        perimeters_lead_up(scopes, p as int);
        assert forall|i: int| #[trigger] lies_in(scopes, i, p as int) implies lies_in(
            scopes,
            i,
            s,
        ) by {
            assert(within(scopes, i, p as int));
            assert(within(scopes, i, s));
        }
        assert forall|i: int| #[trigger] lies_in(scopes, i, s) implies i == s || lies_in(
            scopes,
            i,
            p as int,
        ) by {
            assert(within(scopes, i, s));
            assert(i == s || within(scopes, i, p as int));
        }
    } else {
        assert forall|i: int| #[trigger] lies_in(scopes, i, s) implies i == s by {
            assert(within(scopes, i, s));
        }
    }
}

/// A charge is borne by the scope and every scope above it, each by the same
/// amount, and by no other; giving it back gives it back to exactly those.
pub proof fn a_charge_is_borne_all_the_way_up(scopes: Seq<Scope>, s: int, r: Resource, n: u64)
    requires
        scopes_wf(scopes),
        0 <= s < MAX_SCOPES,
        has_room(scopes, s, r, n as int),
    ensures
        forall|i: int|
            0 <= i < MAX_SCOPES ==> {
                let after = #[trigger] charged(scopes, s, r, n as int)[i];
                let x = scopes[i];
                &&& same_but_used(x, after)
                &&& used(after, r) == used(x, r) + if lies_in(scopes, i, s) {
                    n as int
                } else {
                    0
                }
                &&& forall|o: Resource| o != r ==> #[trigger] used(after, o) == used(x, o)
            },
        forall|i: int|
            0 <= i < MAX_SCOPES ==> {
                let after = #[trigger] released(scopes, s, r, n)[i];
                let x = scopes[i];
                &&& same_but_used(x, after)
                &&& lies_in(scopes, i, s) && used(x, r) >= n ==> used(after, r) == used(x, r) - n
                &&& lies_in(scopes, i, s) && used(x, r) < n ==> used(after, r) == 0
                &&& !lies_in(scopes, i, s) ==> after == x
                &&& forall|o: Resource| o != r ==> #[trigger] used(after, o) == used(x, o)
            },
{
    perimeters_lead_up(scopes, s);
    room_is_asked_of_every_scope_above(scopes, s, r, n as int);
    assert forall|i: int| 0 <= i < MAX_SCOPES implies {
        let after = #[trigger] charged(scopes, s, r, n as int)[i];
        let x = scopes[i];
        &&& same_but_used(x, after)
        &&& used(after, r) == used(x, r) + if lies_in(scopes, i, s) {
            n as int
        } else {
            0
        }
        &&& forall|o: Resource| o != r ==> #[trigger] used(after, o) == used(x, o)
    } by {
        assert(within(scopes, i, s) == lies_in(scopes, i, s));
    }
    assert forall|i: int| 0 <= i < MAX_SCOPES implies {
        let after = #[trigger] released(scopes, s, r, n)[i];
        let x = scopes[i];
        &&& same_but_used(x, after)
        &&& lies_in(scopes, i, s) && used(x, r) >= n ==> used(after, r) == used(x, r) - n
        &&& lies_in(scopes, i, s) && used(x, r) < n ==> used(after, r) == 0
        &&& !lies_in(scopes, i, s) ==> after == x
        &&& forall|o: Resource| o != r ==> #[trigger] used(after, o) == used(x, o)
    } by {
        assert(within(scopes, i, s) == lies_in(scopes, i, s));
    }
}

/// A barrier closes every open scope of its perimeter and touches nothing outside:
/// a scope that was closed already, or from which no way up leads to the root, is
/// as it was.
pub proof fn a_barrier_closes_its_perimeter_only(scopes: Seq<Scope>, root: int)
    requires
        scopes_wf(scopes),
    ensures
        fenced(scopes, root).len() == scopes.len(),
        forall|i: int|
            0 <= i < MAX_SCOPES ==> {
                let after = #[trigger] fenced(scopes, root)[i];
                if scopes[i].state == State::Open && lies_in(scopes, root, i) {
                    &&& after.state == State::Fenced
                    &&& after == (Scope {
                        state: State::Fenced,
                        drain_token: after.drain_token,
                        ..scopes[i]
                    })
                } else {
                    after == scopes[i]
                }
            },
{
    assert forall|i: int| 0 <= i < MAX_SCOPES implies within(scopes, root, i) == #[trigger] lies_in(
        scopes,
        root,
        i,
    ) by {
        a_perimeter_is_what_leads_up_to_it(scopes, root, i);
    }
}

/// Nothing in a scope could still act or be acted on.
pub open spec fn rests(s: Scope) -> bool {
    s.threads == 0 && s.invocations_pending == 0 && s.effects_pending == 0 && s.maps_pending == 0
}

proof fn resting_adds_up(scopes: Seq<Scope>, root: int, n: int)
    requires
        scopes_wf(scopes),
        0 <= n <= MAX_SCOPES,
    ensures
        pending_among(scopes, root, n).is_clear() <==> forall|i: int|
            0 <= i < n && #[trigger] lies_in(scopes, root, i) && scopes[i].state != State::Empty
                ==> rests(scopes[i]),
    decreases n,
{
    if n > 0 {
        resting_adds_up(scopes, root, n - 1);
        a_perimeter_is_what_leads_up_to_it(scopes, root, n - 1);
        let before = pending_among(scopes, root, n - 1);
        if scopes[n - 1].state != State::Empty && within(scopes, root, n - 1) {
            assert(pending_among(scopes, root, n) == before.with(scopes[n - 1]));
            assert(lies_in(scopes, root, n - 1));
            assert(before.with(scopes[n - 1]).is_clear() == (before.is_clear() && rests(
                scopes[n - 1],
            )));
        }
    }
}

/// A closed scope comes to rest exactly when nothing in its whole perimeter is
/// running, owed, taking effect or mapped any more. No other scope changes.
pub proof fn a_scope_rests_when_its_perimeter_does(scopes: Seq<Scope>, now: u64)
    requires
        scopes_wf(scopes),
    ensures
        forall|k: int|
            0 <= k < MAX_SCOPES ==> {
                let after = #[trigger] quiesced(scopes, now)[k];
                if scopes[k].state == State::Fenced && (forall|i: int|
                    0 <= i < MAX_SCOPES && #[trigger] lies_in(scopes, k, i) && scopes[i].state
                        != State::Empty ==> rests(scopes[i])) {
                    after == (Scope {
                        state: State::Quiescent,
                        last_progress_ns: now,
                        ..scopes[k]
                    })
                } else {
                    after == scopes[k]
                }
            },
{
    assert forall|k: int| 0 <= k < MAX_SCOPES implies {
        let after = #[trigger] quiesced(scopes, now)[k];
        if scopes[k].state == State::Fenced && (forall|i: int|
            0 <= i < MAX_SCOPES && #[trigger] lies_in(scopes, k, i) && scopes[i].state
                != State::Empty ==> rests(scopes[i])) {
            after == (Scope { state: State::Quiescent, last_progress_ns: now, ..scopes[k] })
        } else {
            after == scopes[k]
        }
    } by {
        resting_adds_up(scopes, k, MAX_SCOPES as int);
        assert(pending_spec(scopes, k) == pending_among(scopes, k, MAX_SCOPES as int));
    }
}

/// The sum of a count over the scopes in use of a perimeter, among the first `n`.
pub open spec fn total(
    scopes: Seq<Scope>,
    root: int,
    count: spec_fn(Scope) -> u32,
    n: int,
) -> int
    decreases n,
{
    if n <= 0 {
        0
    } else {
        total(scopes, root, count, n - 1) + if scopes[n - 1].state != State::Empty && lies_in(
            scopes,
            root,
            n - 1,
        ) {
            count(scopes[n - 1]) as int
        } else {
            0
        }
    }
}

/// A sum, or the largest number that can be told.
pub open spec fn told(n: int) -> int {
    if n <= u32::MAX {
        n
    } else {
        u32::MAX as int
    }
}

proof fn totals_add_up(scopes: Seq<Scope>, root: int, n: int)
    requires
        scopes_wf(scopes),
        0 <= n <= MAX_SCOPES,
    ensures
        ({
            let held = pending_among(scopes, root, n);
            &&& held.threads == told(total(scopes, root, |s: Scope| s.threads, n))
            &&& held.invocations == told(total(scopes, root, |s: Scope| s.invocations_pending, n))
            &&& held.effects == told(total(scopes, root, |s: Scope| s.effects_pending, n))
            &&& held.maps == told(total(scopes, root, |s: Scope| s.maps_pending, n))
            &&& held.undelivered == told(total(scopes, root, |s: Scope| s.undelivered, n))
            &&& held.pages == scopes[root].memory_pages
            &&& held.metadata == scopes[root].metadata
            &&& 0 <= total(scopes, root, |s: Scope| s.threads, n)
            &&& 0 <= total(scopes, root, |s: Scope| s.invocations_pending, n)
            &&& 0 <= total(scopes, root, |s: Scope| s.effects_pending, n)
            &&& 0 <= total(scopes, root, |s: Scope| s.maps_pending, n)
            &&& 0 <= total(scopes, root, |s: Scope| s.undelivered, n)
        }),
    decreases n,
{
    reveal_with_fuel(total, 2);
    reveal_with_fuel(pending_among, 2);
    if n > 0 {
        totals_add_up(scopes, root, n - 1);
        a_perimeter_is_what_leads_up_to_it(scopes, root, n - 1);
    }
}

/// A drain report is the sum over the whole perimeter: threads, obligations,
/// effects, mappings and withdrawn messages of every scope in it, and the pages
/// and records its root answers for.
pub proof fn a_report_sums_up_the_perimeter(m: MachineModel, root: int)
    requires
        m.wf(),
        0 <= root < MAX_SCOPES,
    ensures
        ({
            let report = m.scope_report(root);
            let n = MAX_SCOPES as int;
            &&& report.threads_running == told(total(m.scopes, root, |s: Scope| s.threads, n))
            &&& report.invocations_pending == told(
                total(m.scopes, root, |s: Scope| s.invocations_pending, n),
            )
            &&& report.effects_pending == told(
                total(m.scopes, root, |s: Scope| s.effects_pending, n),
            )
            &&& report.maps_pending == told(total(m.scopes, root, |s: Scope| s.maps_pending, n))
            &&& report.undelivered_cancelled == told(
                total(m.scopes, root, |s: Scope| s.undelivered, n),
            )
            &&& report.retained_pages == m.scopes[root].memory_pages
            &&& report.retained_metadata == m.scopes[root].metadata
            &&& report.token == m.scopes[root].drain_token
            &&& report.last_progress_ns == m.scopes[root].last_progress_ns
        }),
{
    totals_add_up(m.scopes, root, MAX_SCOPES as int);
}

/// A running thread counts in its scope and in every scope above, and may run
/// where each of them has a slot left.
pub proof fn running_counts_all_the_way_up(scopes: Seq<Scope>, s: int, more: bool)
    requires
        scopes_wf(scopes),
        0 <= s < MAX_SCOPES,
    ensures
        has_slot(scopes, s) <==> forall|i: int|
            0 <= i < MAX_SCOPES && #[trigger] lies_in(scopes, i, s)
                ==> scopes[i].parallelism_used < scopes[i].limits.parallelism,
        forall|i: int|
            0 <= i < MAX_SCOPES ==> {
                let after = #[trigger] parallelised(scopes, s, more)[i];
                let x = scopes[i];
                &&& after == (Scope { parallelism_used: after.parallelism_used, ..x })
                &&& !lies_in(scopes, i, s) ==> after == x
                &&& lies_in(scopes, i, s) && more && x.parallelism_used < u32::MAX
                    ==> after.parallelism_used == x.parallelism_used + 1
                &&& lies_in(scopes, i, s) && !more && x.parallelism_used > 0
                    ==> after.parallelism_used == x.parallelism_used - 1
            },
{
    perimeters_lead_up(scopes, s);
    assert forall|i: int| 0 <= i < MAX_SCOPES implies {
        let after = #[trigger] parallelised(scopes, s, more)[i];
        let x = scopes[i];
        &&& after == (Scope { parallelism_used: after.parallelism_used, ..x })
        &&& !lies_in(scopes, i, s) ==> after == x
        &&& lies_in(scopes, i, s) && more && x.parallelism_used < u32::MAX
            ==> after.parallelism_used == x.parallelism_used + 1
        &&& lies_in(scopes, i, s) && !more && x.parallelism_used > 0 ==> after.parallelism_used
            == x.parallelism_used - 1
    } by {
        assert(within(scopes, i, s) == lies_in(scopes, i, s));
    }
    assert(forall|i: int| #[trigger] lies_in(scopes, i, s) ==> within(scopes, i, s));
}

/// A barrier wakes whoever waits in its perimeter, by the scope a thread works for
/// or the one that owns it, and tells them that they were cancelled. No other
/// thread changes, and nothing else does.
pub proof fn a_barrier_cancels_the_waits_of_its_perimeter(m: MachineModel, root: int)
    requires
        m.wf(),
    ensures
        ({
            let after = m.waits_cancelled(root);
            &&& after == (MachineModel { threads: after.threads, ..m })
            &&& forall|t: int|
                0 <= t < MAX_THREADS ==> {
                    let before = m.threads[t];
                    if before.state == ThreadState::Blocked && (lies_in(
                        m.scopes,
                        root,
                        before.effective_scope as int,
                    ) || lies_in(m.scopes, root, before.owner_scope as int)) {
                        &&& (#[trigger] after.threads[t]).state == ThreadState::Ready
                        &&& after.threads[t].wait == crate::state::Wait::Nothing
                        &&& after.threads[t].wake_status
                            == crate::abi::status::Status::Cancelled
                    } else {
                        after.threads[t] == before
                    }
                }
        }),
{
    let after = m.waits_cancelled(root);
    assert forall|t: int| 0 <= t < MAX_THREADS implies {
        let before = m.threads[t];
        if before.state == ThreadState::Blocked && (lies_in(
            m.scopes,
            root,
            before.effective_scope as int,
        ) || lies_in(m.scopes, root, before.owner_scope as int)) {
            &&& (#[trigger] after.threads[t]).state == ThreadState::Ready
            &&& after.threads[t].wait == crate::state::Wait::Nothing
            &&& after.threads[t].wake_status == crate::abi::status::Status::Cancelled
        } else {
            after.threads[t] == before
        }
    } by {
        assert(crate::state::thread_ok(m.threads[t]));
        a_perimeter_is_what_leads_up_to_it(
            m.scopes,
            root,
            m.threads[t].effective_scope as int,
        );
        a_perimeter_is_what_leads_up_to_it(m.scopes, root, m.threads[t].owner_scope as int);
    }
}

/// A new scope is what was asked for, right below the scope it was asked of, and
/// can hold no more of anything than that one.
pub proof fn a_new_scope_is_what_was_asked_for(
    m: MachineModel,
    ctx: Ctx,
    request: ScopeCreateRequest,
    i: int,
)
    requires
        m.wf(),
        ctx_ok(ctx, ObjKind::Scope),
        m.child_fault(ctx, request) is None,
        0 <= i < MAX_SCOPES,
    ensures
        ({
            let p = ctx.cap.object.index as int;
            let made = m.child_created(ctx, request, i).scopes[i];
            let asked = request.limits;
            &&& m.scopes[p].state == State::Open
            &&& made.state == State::Open
            &&& made.parent == Some(p as u16)
            &&& made.depth == m.scopes[p].depth + 1
            &&& made.depth < MAX_SCOPE_DEPTH
            &&& made.id == m.next_id
            &&& made.label == request.label
            &&& made.refs == 1
            &&& made.limits.memory_pages == asked.memory_pages <= m.scopes[p].limits.memory_pages
            &&& made.limits.metadata_objects == asked.metadata_objects
                <= m.scopes[p].limits.metadata_objects
            &&& made.limits.cpu_budget_ns == asked.cpu_budget_ns
                <= m.scopes[p].limits.cpu_budget_ns
            &&& made.limits.queue_bytes == asked.queue_bytes <= m.scopes[p].limits.queue_bytes
            &&& made.limits.closure_reserve_ns == asked.closure_reserve_ns
                <= m.scopes[p].limits.closure_reserve_ns
            &&& made.limits.parallelism == asked.parallelism <= m.scopes[p].limits.parallelism
            &&& made.memory_pages == 0 && made.metadata == 0 && made.queue_bytes == 0
            &&& made.threads == 0 && made.invocations_pending == 0 && made.effects_pending == 0
            &&& made.children == 0 && made.parallelism_used == 0
        }),
{
    let p = ctx.cap.object.index;
    let generation = crate::ctrl::one_more(m.scopes[i].generation);
    let owned = m.claimed(p).owned(
        ctx.domain as int,
        crate::obj::ObjRef { kind: ObjKind::Scope, index: i as u16, generation },
        ObjKind::Scope.mask_spec(),
    );
    assert(owned.scopes.len() == MAX_SCOPES);
}

/// New ceilings are accepted where they cover what the scope has used and fit
/// under its parent's.
pub proof fn ceilings_cover_what_is_used(m: MachineModel, ctx: Ctx, request: ScopeLimits)
    requires
        m.wf(),
        ctx_ok(ctx, ObjKind::Scope),
        m.scopes[ctx.cap.object.index as int].state == State::Open,
        request.reserved0 == 0,
    ensures
        m.limits_fault(ctx, request) is None <==> {
            let s = m.scopes[ctx.cap.object.index as int];
            &&& s.memory_pages <= request.memory_pages
            &&& s.metadata <= request.metadata_objects
            &&& s.queue_bytes <= request.queue_bytes
            &&& s.parent matches Some(p) ==> {
                let above = m.scopes[p as int].limits;
                &&& request.memory_pages <= above.memory_pages
                &&& request.metadata_objects <= above.metadata_objects
                &&& request.cpu_budget_ns <= above.cpu_budget_ns
                &&& request.queue_bytes <= above.queue_bytes
                &&& request.closure_reserve_ns <= above.closure_reserve_ns
                &&& request.parallelism <= above.parallelism
            }
        },
        limits_of(request).memory_pages == request.memory_pages,
        limits_of(request).metadata_objects == request.metadata_objects,
        limits_of(request).cpu_budget_ns == request.cpu_budget_ns,
        limits_of(request).queue_bytes == request.queue_bytes,
        limits_of(request).closure_reserve_ns == request.closure_reserve_ns,
        limits_of(request).parallelism == request.parallelism,
{
}

/// A scope is described as it stands: its ceilings, what it uses of them, where it
/// lies, and the processor time of the window that `now` falls in.
pub proof fn a_scope_is_described_as_it_stands(m: MachineModel, i: int, spent: u64, now: u64)
    requires
        m.wf(),
        0 <= i < MAX_SCOPES,
        m.scopes[i].cpu_window_ns + spent <= u64::MAX,
        m.scopes[i].cpu_total_ns + spent <= u64::MAX,
    ensures
        ({
            let s = m.scopes[i];
            let info = m.scope_info(i, spent, now);
            &&& info.limits.memory_pages == s.limits.memory_pages
            &&& info.limits.metadata_objects == s.limits.metadata_objects
            &&& info.limits.cpu_budget_ns == s.limits.cpu_budget_ns
            &&& info.limits.queue_bytes == s.limits.queue_bytes
            &&& info.limits.closure_reserve_ns == s.limits.closure_reserve_ns
            &&& info.limits.parallelism == s.limits.parallelism
            &&& info.depth == s.depth
            &&& info.threads == s.threads
            &&& info.parallelism_used == s.parallelism_used
            &&& info.scope_id == s.id
            &&& s.parent is None ==> info.parent_scope_id == 0
            &&& s.parent matches Some(p) ==> info.parent_scope_id == m.scopes[p as int].id
            &&& info.memory_pages_used == s.memory_pages
            &&& info.metadata_used == s.metadata
            &&& info.queue_bytes_used == s.queue_bytes
            &&& info.cpu_total_ns == s.cpu_total_ns + spent
            &&& info.cpu_debt_ns == s.cpu_debt_ns
            &&& info.closure_used_ns == s.closure_used_ns
            &&& info.window_index == now / CPU_WINDOW_NS
            &&& s.window_index == now / CPU_WINDOW_NS ==> info.cpu_window_used_ns
                == s.cpu_window_ns + spent
            &&& s.window_index != now / CPU_WINDOW_NS ==> info.cpu_window_used_ns == spent
        }),
{
}

/// Retiring marks every scope in use of the perimeter and no other.
pub proof fn retiring_marks_its_perimeter_only(m: MachineModel, root: int)
    requires
        m.wf(),
    ensures
        ({
            let after = m.marked_retired(root);
            &&& after == (MachineModel { scopes: after.scopes, ..m })
            &&& forall|i: int|
                0 <= i < MAX_SCOPES ==> #[trigger] after.scopes[i] == if m.scopes[i].state
                    != State::Empty && lies_in(m.scopes, root, i) {
                    Scope { state: State::Retired, ..m.scopes[i] }
                } else {
                    m.scopes[i]
                }
        }),
{
    assert forall|i: int| 0 <= i < MAX_SCOPES implies within(m.scopes, root, i)
        == #[trigger] lies_in(m.scopes, root, i) by {
        a_perimeter_is_what_leads_up_to_it(m.scopes, root, i);
    }
}

} // verus!
