//! Domains and threads: what runs, what it starts with, and what is left when it
//! ends.

use vstd::prelude::*;

use crate::abi::request::{FaultChannelRequest, InstallCapRequest};
use crate::abi::status::Status;
use crate::abi::{object_type, right};
use crate::api::{ctx_ok, Ctx};
use crate::domain::{first_thread, thread_count, thread_from};
use crate::ipc::{Cancel, Endpoint, Invocation, State as OwedState};
use crate::laws::how_many;
use crate::laws::scopes::{a_perimeter_is_what_leads_up_to_it, lies_in};
use crate::limits::{
    MAX_CAPS, MAX_CPUS, MAX_DOMAINS, MAX_ENDPOINTS, MAX_INVOCATIONS, MAX_THREADS,
    MAX_THREADS_PER_DOMAIN,
};
use crate::obj::ObjKind;
use crate::scope::State as ScopeState;
use crate::state::{Domain, DomainState, FaultRecord, MachineModel, Thread, ThreadState, Wait, WakeHint};
use crate::thread::first_waiting_from;

verus! {

/// A thread stands in some place of a domain.
pub open spec fn has_thread(domain: Domain, t: int) -> bool {
    exists|p: int|
        0 <= p < MAX_THREADS_PER_DOMAIN && #[trigger] domain.threads@[p] == Some(t as u16)
}

proof fn some_thread_is_first(domain: Domain, from: int)
    requires
        0 <= from <= MAX_THREADS_PER_DOMAIN,
    ensures
        thread_from(domain, from) is None <==> forall|p: int|
            from <= p < MAX_THREADS_PER_DOMAIN ==> #[trigger] domain.threads@[p] is None,
        thread_from(domain, from) matches Some(t) ==> exists|p: int|
            {
                &&& from <= p < MAX_THREADS_PER_DOMAIN
                &&& #[trigger] domain.threads@[p] == Some(t)
                &&& forall|q: int| from <= q < p ==> #[trigger] domain.threads@[q] is None
            },
    decreases MAX_THREADS_PER_DOMAIN - from,
{
    if from < MAX_THREADS_PER_DOMAIN {
        if domain.threads@[from] is None {
            some_thread_is_first(domain, from + 1);
        } else {
            assert(domain.threads@[from] == thread_from(domain, from));
        }
    }
}

/// A domain is let run only when it is whole: it is under construction, has an
/// address space, a program and a stack, a thread with a kernel stack, an entry
/// point that it may execute, somewhere to report faults where it is managed, and
/// a scope that is open.
pub proof fn only_a_whole_domain_is_activated(m: MachineModel, d: int)
    requires
        m.wf(),
        0 <= d < MAX_DOMAINS,
    ensures
        m.activation_fault(d) is None <==> {
            let domain = m.domains[d];
            &&& domain.state == DomainState::Building
            &&& domain.space is Some
            &&& domain.segments != 0
            &&& domain.stack_mapped
            &&& exists|p: int|
                {
                    &&& 0 <= p < MAX_THREADS_PER_DOMAIN
                    &&& #[trigger] domain.threads@[p] is Some
                    &&& forall|q: int| 0 <= q < p ==> #[trigger] domain.threads@[q] is None
                    &&& m.threads[domain.threads@[p]->0 as int].kstack_top != 0
                }
            &&& m.translated(d, domain.entry) matches Some(e) && e & 0x8000_0000_0000_0000 == 0 && e
                & 4 != 0
            &&& domain.managed ==> domain.fault_endpoint is Some
            &&& m.scopes[domain.owner_scope as int].state == ScopeState::Open
        },
{
    let domain = m.domains[d];
    some_thread_is_first(domain, 0);
    if thread_from(domain, 0) is Some {
        let t = thread_from(domain, 0)->0;
        let p = choose|p: int|
            {
                &&& 0 <= p < MAX_THREADS_PER_DOMAIN
                &&& #[trigger] domain.threads@[p] == Some(t)
                &&& forall|q: int| 0 <= q < p ==> #[trigger] domain.threads@[q] is None
            };
        assert(domain.threads@[p] is Some);
        assert forall|r: int|
            0 <= r < MAX_THREADS_PER_DOMAIN && #[trigger] domain.threads@[r] is Some && (forall|
                q: int,
            |
                0 <= q < r ==> #[trigger] domain.threads@[q] is None) implies r == p by {
            if r < p {
                assert(domain.threads@[r] is None);
            }
            if p < r {
                assert(domain.threads@[p] is None);
            }
        }
    }
}

proof fn starting_starts_its_own(m: MachineModel, d: int, n: nat)
    requires
        m.threads.len() == MAX_THREADS,
        n <= MAX_THREADS_PER_DOMAIN,
        forall|p: int|
            0 <= p < MAX_THREADS_PER_DOMAIN ==> ((#[trigger] m.domains[d].threads@[p]) matches Some(
                t,
            ) ==> t < MAX_THREADS),
    ensures
        ({
            let after = m.threads_started(d, n);
            &&& after == (MachineModel { threads: after.threads, ..m })
            &&& after.threads.len() == m.threads.len()
            &&& forall|t: int|
                0 <= t < MAX_THREADS ==> #[trigger] after.threads[t] == if exists|p: int|
                    0 <= p < n && #[trigger] m.domains[d].threads@[p] == Some(t as u16) {
                    Thread { state: ThreadState::Ready, ..m.threads[t] }
                } else {
                    m.threads[t]
                }
        }),
    decreases n,
{
    if n > 0 {
        starting_starts_its_own(m, d, (n - 1) as nat);
        let before = m.threads_started(d, (n - 1) as nat);
        let after = m.threads_started(d, n);
        let named = m.domains[d].threads@[n - 1];
        assert forall|t: int| 0 <= t < MAX_THREADS implies #[trigger] after.threads[t]
            == if exists|p: int| 0 <= p < n && #[trigger] m.domains[d].threads@[p] == Some(
            t as u16,
        ) {
            Thread { state: ThreadState::Ready, ..m.threads[t] }
        } else {
            m.threads[t]
        } by {
            let was = before.threads[t];
            if exists|p: int| 0 <= p < n - 1 && #[trigger] m.domains[d].threads@[p] == Some(
                t as u16,
            ) {
                let p = choose|p: int|
                    0 <= p < n - 1 && #[trigger] m.domains[d].threads@[p] == Some(t as u16);
                assert(m.domains[d].threads@[p] == Some(t as u16));
            } else if named == Some(t as u16) {
                assert(m.domains[d].threads@[n - 1] == Some(t as u16));
            } else if exists|p: int| 0 <= p < n && #[trigger] m.domains[d].threads@[p] == Some(
                t as u16,
            ) {
                let p = choose|p: int|
                    0 <= p < n && #[trigger] m.domains[d].threads@[p] == Some(t as u16);
                assert(p == n - 1);
            }
        }
    }
}

/// Activating a domain makes it runnable and lets exactly its own threads run.
/// No other domain and no other thread changes.
pub proof fn activation_starts_its_own_threads(m: MachineModel, d: int)
    requires
        m.wf(),
        0 <= d < MAX_DOMAINS,
        forall|p: int|
            0 <= p < MAX_THREADS_PER_DOMAIN ==> ((#[trigger] m.domains[d].threads@[p]) matches Some(
                t,
            ) ==> t < MAX_THREADS),
    ensures
        ({
            let after = m.activated(d);
            &&& after.domains[d] == (Domain { state: DomainState::Runnable, ..m.domains[d] })
            &&& forall|k: int|
                0 <= k < MAX_DOMAINS && k != d ==> #[trigger] after.domains[k] == m.domains[k]
            &&& forall|t: int|
                0 <= t < MAX_THREADS ==> #[trigger] after.threads[t] == if has_thread(
                    m.domains[d],
                    t,
                ) {
                    Thread { state: ThreadState::Ready, ..m.threads[t] }
                } else {
                    m.threads[t]
                }
            &&& after == (MachineModel { domains: after.domains, threads: after.threads, ..m })
        }),
{
    let marked = m.with_domain(
        d,
        Domain { state: DomainState::Runnable, ..m.domains[d] },
    );
    starting_starts_its_own(marked, d, MAX_THREADS_PER_DOMAIN as nat);
    assert forall|p: int| 0 <= p < MAX_THREADS_PER_DOMAIN implies
        #[trigger] marked.domains[d].threads@[p] == m.domains[d].threads@[p] by {}
    let after = m.activated(d);
    assert forall|t: int| 0 <= t < MAX_THREADS implies #[trigger] after.threads[t]
        == if has_thread(m.domains[d], t) {
        Thread { state: ThreadState::Ready, ..m.threads[t] }
    } else {
        m.threads[t]
    } by {
        assert(marked.threads[t] == m.threads[t]);
        assert((exists|p: int|
            0 <= p < MAX_THREADS_PER_DOMAIN && #[trigger] marked.domains[d].threads@[p] == Some(
                t as u16,
            )) == has_thread(m.domains[d], t));
    }
}

proof fn stopping_stops_its_own(m: MachineModel, d: int, n: nat)
    requires
        m.threads.len() == MAX_THREADS,
        n <= MAX_THREADS_PER_DOMAIN,
        forall|p: int|
            0 <= p < MAX_THREADS_PER_DOMAIN ==> ((#[trigger] m.domains[d].threads@[p]) matches Some(
                t,
            ) ==> t < MAX_THREADS),
    ensures
        ({
            let after = m.threads_stopped(d, n);
            &&& after == (MachineModel { threads: after.threads, scopes: after.scopes, ..m })
            &&& after.threads.len() == m.threads.len()
            &&& forall|t: int|
                0 <= t < MAX_THREADS ==> {
                    if exists|p: int|
                        0 <= p < n && #[trigger] m.domains[d].threads@[p] == Some(t as u16) {
                        &&& (#[trigger] after.threads[t]).state == ThreadState::Dead
                        &&& after.threads[t].wait == Wait::Nothing
                        &&& after.threads[t].parallelism_scope is None
                    } else {
                        after.threads[t] == m.threads[t]
                    }
                }
        }),
    decreases n,
{
    if n > 0 {
        stopping_stops_its_own(m, d, (n - 1) as nat);
        let before = m.threads_stopped(d, (n - 1) as nat);
        let after = m.threads_stopped(d, n);
        let named = m.domains[d].threads@[n - 1];
        assert forall|t: int| 0 <= t < MAX_THREADS implies {
            if exists|p: int| 0 <= p < n && #[trigger] m.domains[d].threads@[p] == Some(t as u16) {
                &&& (#[trigger] after.threads[t]).state == ThreadState::Dead
                &&& after.threads[t].wait == Wait::Nothing
                &&& after.threads[t].parallelism_scope is None
            } else {
                after.threads[t] == m.threads[t]
            }
        } by {
            let was = before.threads[t];
            if exists|p: int| 0 <= p < n - 1 && #[trigger] m.domains[d].threads@[p] == Some(
                t as u16,
            ) {
                let p = choose|p: int|
                    0 <= p < n - 1 && #[trigger] m.domains[d].threads@[p] == Some(t as u16);
                assert(m.domains[d].threads@[p] == Some(t as u16));
            } else if named == Some(t as u16) {
                assert(m.domains[d].threads@[n - 1] == Some(t as u16));
            } else if exists|p: int| 0 <= p < n && #[trigger] m.domains[d].threads@[p] == Some(
                t as u16,
            ) {
                let p = choose|p: int|
                    0 <= p < n && #[trigger] m.domains[d].threads@[p] == Some(t as u16);
                assert(p == n - 1);
            }
        }
    }
}

/// Stopping a domain stops every thread of it for good, and no thread of another.
pub proof fn stopping_stops_every_thread_of_a_domain(m: MachineModel, d: int)
    requires
        m.wf(),
        0 <= d < MAX_DOMAINS,
        forall|p: int|
            0 <= p < MAX_THREADS_PER_DOMAIN ==> ((#[trigger] m.domains[d].threads@[p]) matches Some(
                t,
            ) ==> t < MAX_THREADS),
    ensures
        ({
            let after = m.threads_stopped(d, MAX_THREADS_PER_DOMAIN as nat);
            forall|t: int|
                0 <= t < MAX_THREADS ==> {
                    if has_thread(m.domains[d], t) {
                        &&& (#[trigger] after.threads[t]).state == ThreadState::Dead
                        &&& after.threads[t].wait == Wait::Nothing
                    } else {
                        after.threads[t] == m.threads[t]
                    }
                }
        }),
{
    stopping_stops_its_own(m, d, MAX_THREADS_PER_DOMAIN as nat);
    let after = m.threads_stopped(d, MAX_THREADS_PER_DOMAIN as nat);
    assert forall|t: int| 0 <= t < MAX_THREADS implies {
        if has_thread(m.domains[d], t) {
            &&& (#[trigger] after.threads[t]).state == ThreadState::Dead
            &&& after.threads[t].wait == Wait::Nothing
        } else {
            after.threads[t] == m.threads[t]
        }
    } by {
        assert((exists|p: int|
            0 <= p < MAX_THREADS_PER_DOMAIN && #[trigger] m.domains[d].threads@[p] == Some(
                t as u16,
            )) == has_thread(m.domains[d], t));
    }
}

/// A thread that is added starts where the request says, on the stack and with
/// the argument it says, in memory of its domain that it may reach and a stack it
/// may write. It waits for the domain to be activated, in a place of the domain
/// that was free. No other thread changes.
pub proof fn a_thread_starts_as_asked(
    m: MachineModel,
    d: int,
    entry: u64,
    stack: u64,
    argument: u64,
)
    requires
        m.wf(),
        0 <= d < MAX_DOMAINS,
        m.thread_fault(d, entry, stack) is None,
    ensures
        ({
            let after = m.thread_added(d, entry, stack, argument);
            let top = if stack >= 8 {
                (stack - 8) as u64
            } else {
                0
            };
            &&& m.domains[d].state == DomainState::Building
            &&& m.translated(d, entry) matches Some(e) && e & 4 != 0
            &&& m.translated(d, top) matches Some(e) && e & 4 != 0 && e & 2 != 0
            &&& exists|t: int, p: int|
                {
                    let made = #[trigger] after.threads[t];
                    &&& 0 <= t < MAX_THREADS
                    &&& 0 <= p < MAX_THREADS_PER_DOMAIN
                    &&& m.threads[t].state == ThreadState::Empty
                    &&& made.state == ThreadState::Held
                    &&& made.domain == d
                    &&& made.domain_generation == m.domains[d].generation
                    &&& made.owner_scope == m.domains[d].owner_scope
                    &&& made.effective_scope == m.domains[d].owner_scope
                    &&& made.entry == entry
                    &&& made.stack_top == stack
                    &&& made.argument == argument
                    &&& made.bound is None
                    &&& m.domains[d].threads@[p] is None
                    &&& #[trigger] after.domains[d].threads@[p] == Some(t as u16)
                    &&& forall|q: int|
                        0 <= q < MAX_THREADS_PER_DOMAIN && q != p
                            ==> #[trigger] after.domains[d].threads@[q]
                            == m.domains[d].threads@[q]
                    &&& forall|u: int|
                        0 <= u < MAX_THREADS && u != t ==> #[trigger] after.threads[u]
                            == m.threads[u]
                }
        }),
{
    let t = first_thread(m.threads, 0);
    let p = MachineModel::free_place(m.domains[d], 0);
    crate::laws::images::thread_is_free(m.threads, 0);
    place_is_free(m.domains[d], 0);
    crate::bytes::array_of_holds::<Option<u16>, MAX_THREADS_PER_DOMAIN>(
        m.domains[d].threads@.update(p, Some(t as u16)),
    );
    let after = m.thread_added(d, entry, stack, argument);
    assert(after.threads[t].state == ThreadState::Held);
    assert(after.domains[d].threads@[p] == Some(t as u16));
}

proof fn place_is_free(domain: Domain, from: int)
    requires
        0 <= from <= MAX_THREADS_PER_DOMAIN,
    ensures
        ({
            let p = MachineModel::free_place(domain, from);
            &&& from <= p <= MAX_THREADS_PER_DOMAIN
            &&& p < MAX_THREADS_PER_DOMAIN ==> domain.threads@[p] is None
        }),
    decreases MAX_THREADS_PER_DOMAIN - from,
{
    if from < MAX_THREADS_PER_DOMAIN && domain.threads@[from] is Some {
        place_is_free(domain, from + 1);
    }
}

/// A fault is put on record as it happened, and counted.
pub proof fn a_fault_is_on_record(m: MachineModel, d: int, record: FaultRecord)
    requires
        m.wf(),
        0 <= d < MAX_DOMAINS,
    ensures
        ({
            let after = m.fault_recorded(d, record);
            &&& after.domains[d].fault == Some(record)
            &&& m.domains[d].faults < u32::MAX ==> after.domains[d].faults == m.domains[d].faults
                + 1
            &&& m.user_faults < u64::MAX ==> after.user_faults == m.user_faults + 1
            &&& after.domains[d].state == m.domains[d].state
            &&& forall|k: int|
                0 <= k < MAX_DOMAINS && k != d ==> #[trigger] after.domains[k] == m.domains[k]
            &&& after.domain_info(d).fault_vector == record.vector
            &&& after.domain_info(d).fault_rip == record.rip
        }),
{
}

/// A stopped domain is taken down only when no processor that takes part runs a
/// thread of it, is leaving one, or has its address space loaded.
pub proof fn only_what_nothing_stands_on_is_reaped(m: MachineModel, d: int, c: int)
    requires
        m.is_reapable(d),
        0 <= c < MAX_CPUS,
        m.cpus[c].online,
    ensures
        m.domains[d].state == DomainState::Faulted || m.domains[d].state == DomainState::Stopping,
        m.domains[d].space is Some,
        m.cpus[c].space != Some(d as u16),
        m.cpus[c].current matches Some(t) ==> !(m.threads[t as int].domain == d
            && m.threads[t as int].domain_generation == m.domains[d].generation),
        m.cpus[c].leaving matches Some(t) ==> !(m.threads[t as int].domain == d
            && m.threads[t as int].domain_generation == m.domains[d].generation),
{
}

/// A capability that is installed stands in the slot that was asked for, which was
/// free, and names the object of the source. A copy shares its grant; one that is
/// narrowed has a grant of its own below it, with exactly the rights asked for.
pub proof fn a_capability_is_installed_where_asked(
    m: MachineModel,
    ctx: Ctx,
    request: InstallCapRequest,
)
    requires
        m.wf(),
        ctx_ok(ctx, ObjKind::Domain),
        m.install_fault(ctx, request) is None,
    ensures
        ({
            let after = m.cap_installed(ctx, request);
            let d = ctx.cap.object.index as int;
            let at = d * MAX_CAPS + request.target_slot;
            let source = m.install_source(ctx, request)->Ok_0;
            let made = after.caps[at];
            &&& m.domains[d].state == DomainState::Building
            &&& request.target_slot < MAX_CAPS
            &&& !m.caps[at].live
            &&& made.live
            &&& made.object == source.object
            &&& request.rights_mask == 0 && request.deadline_ns == 0 ==> made.grant == source.grant
            &&& !(request.rights_mask == 0 && request.deadline_ns == 0) ==> {
                let grant = after.grants[made.grant as int];
                &&& !m.grants[made.grant as int].used
                &&& grant.used
                &&& grant.parent == source.grant
                &&& grant.object == source.object
                &&& grant.rights == request.rights_mask
                &&& grant.rights & !source.rights == 0
                &&& grant.facet == m.grants[source.grant as int].facet
                &&& grant.life_scope == m.grants[source.grant as int].life_scope
                &&& request.deadline_ns != 0 ==> grant.deadline_ns == request.deadline_ns
                &&& request.deadline_ns == 0 ==> grant.deadline_ns
                    == m.grants[source.grant as int].deadline_ns
            }
            &&& forall|k: int|
                0 <= k < m.caps.len() && k != at ==> #[trigger] after.caps[k] == m.caps[k]
        }),
{
    if !crate::api::domainops::is_copy(request) {
        crate::api::capops::free_node_is_unused(m);
    }
    crate::laws::authority::a_handle_permits_what_its_entry_says(
        m,
        ctx.domain as int,
        request.source_handle,
        object_type::NONE,
        right::TRANSFER,
        ctx.now,
    );
}

/// A fault channel is the endpoint that the handle names, and a cell of its queue
/// is kept for the report. A domain has one, and gets it while it is built.
pub proof fn a_fault_channel_keeps_a_cell(m: MachineModel, ctx: Ctx, request: FaultChannelRequest)
    requires
        m.wf(),
        ctx_ok(ctx, ObjKind::Domain),
        m.channel_fault(ctx, request) is None,
    ensures
        ({
            let after = m.channel_installed(ctx, request);
            let d = ctx.cap.object.index as int;
            let cap = m.channel_source(ctx, request)->Ok_0;
            let e = cap.object.index as int;
            &&& m.domains[d].state == DomainState::Building
            &&& m.domains[d].fault_endpoint is None
            &&& after.domains[d].fault_endpoint == Some(cap.object)
            &&& after.domains[d].fault_grant == cap.grant
            &&& after.domains[d].fault_facet == cap.facet
            &&& after.domains[d].fault_reserved
            &&& after.endpoints[e].reserved_cells == m.endpoints[e].reserved_cells + 1
            &&& after.endpoints[e].reserved_cells < m.endpoints[e].capacity
            &&& after.endpoints[e] == (Endpoint {
                reserved_cells: after.endpoints[e].reserved_cells,
                ..m.endpoints[e]
            })
            &&& forall|k: int|
                0 <= k < MAX_ENDPOINTS && k != e ==> #[trigger] after.endpoints[k]
                    == m.endpoints[k]
            &&& forall|k: int|
                0 <= k < MAX_DOMAINS && k != d ==> #[trigger] after.domains[k] == m.domains[k]
        }),
{
    crate::laws::authority::a_handle_permits_what_its_entry_says(
        m,
        ctx.domain as int,
        request.endpoint_handle,
        object_type::ENDPOINT,
        right::ENDPOINT_SEND,
        ctx.now,
    );
}

proof fn threads_are_counted(domain: Domain, n: int)
    requires
        0 <= n,
    ensures
        thread_count(domain, n) == how_many(|p: int| domain.threads@[p] is Some, n),
        thread_count(domain, n) <= n,
    decreases n,
{
    if n > 0 {
        threads_are_counted(domain, n - 1);
    }
}

/// A domain is described as it stands: its threads, its faults and its owner.
pub proof fn a_domain_is_described_as_it_stands(m: MachineModel, d: int)
    requires
        m.wf(),
        0 <= d < MAX_DOMAINS,
    ensures
        ({
            let info = m.domain_info(d);
            let domain = m.domains[d];
            &&& info.threads == how_many(
                |p: int| domain.threads@[p] is Some,
                MAX_THREADS_PER_DOMAIN as int,
            )
            &&& info.faults == domain.faults
            &&& info.domain_id == domain.id
            &&& info.owner_scope_id == m.scopes[domain.owner_scope as int].id
            &&& info.exit_code == domain.exit_code
            &&& info.entry_point == domain.entry
            &&& domain.fault is None ==> info.fault_vector == 0 && info.fault_rip == 0
            &&& domain.fault matches Some(f) ==> info.fault_vector == f.vector && info.fault_rip
                == f.rip
        }),
{
    threads_are_counted(m.domains[d], MAX_THREADS_PER_DOMAIN as int);
}

/// Whoever is woken first is the first that waits for exactly that, and nobody is
/// passed over.
pub proof fn the_first_that_waits_is_woken(threads: Seq<Thread>, wait: Wait, from: int)
    requires
        0 <= from <= MAX_THREADS,
    ensures
        ({
            let t = first_waiting_from(threads, wait, from);
            &&& from <= t <= MAX_THREADS
            &&& t < MAX_THREADS ==> threads[t].state == ThreadState::Blocked && threads[t].wait
                == wait
            &&& forall|u: int|
                from <= u < t ==> !((#[trigger] threads[u]).state == ThreadState::Blocked
                    && threads[u].wait == wait)
        }),
    decreases MAX_THREADS - from,
{
    if from < MAX_THREADS {
        if !(threads[from].state == ThreadState::Blocked && threads[from].wait == wait) {
            the_first_that_waits_is_woken(threads, wait, from + 1);
        }
    }
}

/// A thread sleeps for what it asked for and until when, and is woken with what it
/// is told. Nothing else of it changes, and no other thread does.
pub proof fn a_thread_sleeps_and_wakes(
    m: MachineModel,
    t: int,
    wait: Wait,
    deadline: u64,
    status: Status,
    hint: WakeHint,
)
    requires
        m.wf(),
        0 <= t < MAX_THREADS,
    ensures
        ({
            let asleep = m.wait_begun(t, wait, deadline);
            let awake = asleep.wake_waiting(t, wait, status, hint);
            let before = m.threads[t];
            &&& asleep.threads[t] == (Thread {
                state: ThreadState::Blocked,
                wait,
                wait_deadline_ns: deadline,
                wake_status: asleep.threads[t].wake_status,
                ..before
            })
            &&& awake.threads[t].state == ThreadState::Ready
            &&& awake.threads[t].wait == Wait::Nothing
            &&& awake.threads[t].wait_deadline_ns == 0
            &&& awake.threads[t].wake_status == status
            &&& awake.threads[t].domain == before.domain
            &&& awake.threads[t].effective_scope == before.effective_scope
            &&& forall|u: int|
                0 <= u < MAX_THREADS && u != t ==> #[trigger] awake.threads[u] == m.threads[u]
            &&& before.state != ThreadState::Blocked || before.wait != wait ==> m.wake_waiting(
                t,
                wait,
                status,
                hint,
            ) == m
        }),
{
}

/// A barrier tells whoever still works for its perimeter that the origin is gone:
/// every obligation that is owed there is marked and no other.
pub proof fn what_is_owed_in_a_perimeter_is_cancelled(m: MachineModel, root: int)
    requires
        m.wf(),
    ensures
        ({
            let after = m.marked_cancelled(root);
            &&& after == (MachineModel { invocations: after.invocations, ..m })
            &&& forall|i: int|
                0 <= i < MAX_INVOCATIONS ==> #[trigger] after.invocations[i]
                    == if m.invocations[i].state != OwedState::Empty && m.invocations[i].state
                    != OwedState::Resolved && lies_in(
                    m.scopes,
                    root,
                    m.invocations[i].origin_scope as int,
                ) {
                    Invocation { cancel: Cancel::OriginFenced, ..m.invocations[i] }
                } else {
                    m.invocations[i]
                }
        }),
{
    assert forall|i: int| 0 <= i < MAX_INVOCATIONS implies crate::scope::within(
        m.scopes,
        root,
        (#[trigger] m.invocations[i]).origin_scope as int,
    ) == lies_in(m.scopes, root, m.invocations[i].origin_scope as int) by {
        assert(crate::state::invocation_ok(m.invocations[i]));
        a_perimeter_is_what_leads_up_to_it(
            m.scopes,
            root,
            m.invocations[i].origin_scope as int,
        );
    }
}

} // verus!
