//! Retiring a scope: what its perimeter sponsored goes, and nothing else.

use vstd::prelude::*;

use crate::events::{Signal, Timer};
use crate::ipc::Endpoint;
use crate::laws::how_many;
use crate::laws::scopes::{a_perimeter_is_what_leads_up_to_it, lies_in};
use crate::limits::{
    MAX_CAPS, MAX_DERIVE_DEPTH, MAX_DOMAINS, MAX_ENDPOINTS, MAX_MEMORY_OBJECTS,
    MAX_SCOPES, MAX_SIGNALS, MAX_TIMERS,
};
use crate::memobj::State as MemState;
use crate::obj::{cap_at, ObjKind, ObjRef, NO_GRANT};
use crate::scope::{
    released, released_keeps_tree, same_tree, scopes_wf, within_same_tree, Resource,
};
use crate::state::{memory_ok, DomainState, MachineModel};

verus! {

/// The tables of endpoints, signals and timers agree but for one object, and the
/// scopes lie as they lay.
spec fn alike_but(a: MachineModel, b: MachineModel, o: ObjRef) -> bool {
    &&& same_tree(a.scopes, b.scopes)
    &&& scopes_wf(b.scopes)
    &&& a.signals.len() == b.signals.len()
    &&& a.timers.len() == b.timers.len()
    &&& a.endpoints.len() == b.endpoints.len()
    &&& forall|k: int|
        0 <= k < a.signals.len() && !(o.kind == ObjKind::Signal && k == o.index)
            ==> #[trigger] b.signals[k] == a.signals[k]
    &&& forall|k: int|
        0 <= k < a.timers.len() && !(o.kind == ObjKind::Timer && k == o.index)
            ==> #[trigger] b.timers[k] == a.timers[k]
    &&& forall|k: int|
        0 <= k < a.endpoints.len() && !(o.kind == ObjKind::Endpoint && k == o.index)
            ==> #[trigger] b.endpoints[k] == a.endpoints[k]
}

/// An object that is an endpoint, a signal or a timer of its table.
spec fn is_quiet(m: MachineModel, o: ObjRef) -> bool {
    ||| o.kind == ObjKind::Signal && o.index < m.signals.len()
    ||| o.kind == ObjKind::Timer && o.index < m.timers.len()
    ||| o.kind == ObjKind::Endpoint && o.index < m.endpoints.len()
}

proof fn collecting_keeps(m: MachineModel, g: u16, steps: nat, o: ObjRef)
    requires
        scopes_wf(m.scopes),
    ensures
        alike_but(m, m.collect_grant(g, steps), o),
    decreases steps,
{
    if steps > 0 && g != NO_GRANT && m.is_idle_grant(g as int) {
        let node = m.grants[g as int];
        released_keeps_tree(m.scopes, node.sponsor as int, Resource::Metadata, 1);
        collecting_keeps(m.free_grant(g as int), node.parent, (steps - 1) as nat, o);
    }
}

proof fn releasing_keeps(m: MachineModel, domain: int, slot: int, o: ObjRef)
    requires
        scopes_wf(m.scopes),
        is_quiet(m, o),
        m.caps[cap_at(domain, slot)].object == o,
    ensures
        alike_but(m, m.release_slot(domain, slot), o),
{
    let entry = m.caps[cap_at(domain, slot)];
    if entry.live {
        let cut = MachineModel {
            caps: crate::obj::without_cap(m.caps, domain, slot),
            ..m
        };
        let s = cut.domains[domain].owner_scope;
        released_keeps_tree(cut.scopes, s as int, Resource::Metadata, 1);
        let unpaid = cut.uncharge(s, Resource::Metadata, 1).count_grant(
            entry.grant,
            false,
        ).count_ref(entry.object, false);
        collecting_keeps(unpaid, entry.grant, MAX_DERIVE_DEPTH as nat, o);
    }
}

proof fn slots_keep(m: MachineModel, domain: int, n: nat, o: ObjRef)
    requires
        scopes_wf(m.scopes),
        is_quiet(m, o),
    ensures
        alike_but(m, m.withdrawn_slots(o, domain, n), o),
    decreases n,
{
    if n > 0 {
        slots_keep(m, domain, (n - 1) as nat, o);
        let before = m.withdrawn_slots(o, domain, (n - 1) as nat);
        let entry = before.caps[cap_at(domain, n - 1)];
        if entry.live && entry.object == o {
            releasing_keeps(before, domain, n - 1, o);
        }
    }
}

proof fn withdrawing_keeps(m: MachineModel, n: nat, o: ObjRef)
    requires
        scopes_wf(m.scopes),
        is_quiet(m, o),
    ensures
        alike_but(m, m.withdrawn_everywhere(o, n), o),
    decreases n,
{
    if n > 0 {
        withdrawing_keeps(m, (n - 1) as nat, o);
        let before = m.withdrawn_everywhere(o, (n - 1) as nat);
        if before.domains[n - 1].state != DomainState::Empty {
            slots_keep(before, n - 1, MAX_CAPS as nat, o);
        }
    }
}

/// An endpoint goes with the perimeter of the scope that owns it.
pub open spec fn endpoint_goes(m: MachineModel, root: int, k: int) -> bool {
    m.endpoints[k].used && lies_in(m.scopes, root, m.endpoints[k].owner_scope as int)
}

proof fn endpoints_go(m: MachineModel, root: int, n: nat)
    requires
        scopes_wf(m.scopes),
        m.endpoints.len() == MAX_ENDPOINTS,
        forall|k: int| 0 <= k < MAX_ENDPOINTS ==> (#[trigger] m.endpoints[k]).owner_scope < MAX_SCOPES,
        n <= MAX_ENDPOINTS,
    ensures
        ({
            let (after, objects) = m.endpoints_retired(root, n);
            &&& same_tree(m.scopes, after.scopes)
            &&& scopes_wf(after.scopes)
            &&& after.endpoints.len() == MAX_ENDPOINTS
            &&& forall|k: int|
                0 <= k < MAX_ENDPOINTS ==> #[trigger] after.endpoints[k] == if k < n && endpoint_goes(m, root, k) {
                    Endpoint { generation: m.endpoints[k].generation, ..Endpoint::empty_spec() }
                } else {
                    m.endpoints[k]
                }
            &&& objects == how_many(|k: int| endpoint_goes(m, root, k), n as int)
            &&& objects <= n
            &&& after.signals == m.signals
            &&& after.timers == m.timers
        }),
    decreases n,
{
    if n > 0 {
        endpoints_go(m, root, (n - 1) as nat);
        let before = m.endpoints_retired(root, (n - 1) as nat).0;
        let i = n - 1;
        let v = m.endpoints[i];
        assert(before.endpoints[i] == v);
        within_same_tree(m.scopes, before.scopes, root, v.owner_scope as int);
        a_perimeter_is_what_leads_up_to_it(m.scopes, root, v.owner_scope as int);
        if endpoint_goes(m, root, i) {
            let o = ObjRef {
                kind: ObjKind::Endpoint,
                index: i as u16,
                generation: v.generation,
            };
            withdrawing_keeps(before, MAX_DOMAINS as nat, o);
            let cut = before.withdrawn_everywhere(o, MAX_DOMAINS as nat);
            released_keeps_tree(cut.scopes, v.owner_scope as int, Resource::Metadata, 1);
        }
    }
}

/// A signal goes with the perimeter of the scope that owns it.
pub open spec fn signal_goes(m: MachineModel, root: int, k: int) -> bool {
    m.signals[k].used && lies_in(m.scopes, root, m.signals[k].owner_scope as int)
}

proof fn signals_go(m: MachineModel, root: int, n: nat)
    requires
        scopes_wf(m.scopes),
        m.signals.len() == MAX_SIGNALS,
        forall|k: int| 0 <= k < MAX_SIGNALS ==> (#[trigger] m.signals[k]).owner_scope < MAX_SCOPES,
        n <= MAX_SIGNALS,
    ensures
        ({
            let (after, objects) = m.signals_retired(root, n);
            &&& same_tree(m.scopes, after.scopes)
            &&& scopes_wf(after.scopes)
            &&& after.signals.len() == MAX_SIGNALS
            &&& forall|k: int|
                0 <= k < MAX_SIGNALS ==> #[trigger] after.signals[k] == if k < n && signal_goes(m, root, k) {
                    Signal { generation: m.signals[k].generation, ..Signal::empty_spec() }
                } else {
                    m.signals[k]
                }
            &&& objects == how_many(|k: int| signal_goes(m, root, k), n as int)
            &&& objects <= n
            &&& after.endpoints == m.endpoints
            &&& after.timers == m.timers
        }),
    decreases n,
{
    if n > 0 {
        signals_go(m, root, (n - 1) as nat);
        let before = m.signals_retired(root, (n - 1) as nat).0;
        let i = n - 1;
        let v = m.signals[i];
        assert(before.signals[i] == v);
        within_same_tree(m.scopes, before.scopes, root, v.owner_scope as int);
        a_perimeter_is_what_leads_up_to_it(m.scopes, root, v.owner_scope as int);
        if signal_goes(m, root, i) {
            let o = ObjRef {
                kind: ObjKind::Signal,
                index: i as u16,
                generation: v.generation,
            };
            withdrawing_keeps(before, MAX_DOMAINS as nat, o);
            let cut = before.withdrawn_everywhere(o, MAX_DOMAINS as nat);
            released_keeps_tree(cut.scopes, v.owner_scope as int, Resource::Metadata, 1);
        }
    }
}

/// A timer goes with the perimeter of the scope that owns it.
pub open spec fn timer_goes(m: MachineModel, root: int, k: int) -> bool {
    m.timers[k].used && lies_in(m.scopes, root, m.timers[k].owner_scope as int)
}

proof fn timers_go(m: MachineModel, root: int, n: nat)
    requires
        scopes_wf(m.scopes),
        m.timers.len() == MAX_TIMERS,
        forall|k: int| 0 <= k < MAX_TIMERS ==> (#[trigger] m.timers[k]).owner_scope < MAX_SCOPES,
        n <= MAX_TIMERS,
    ensures
        ({
            let (after, objects) = m.timers_retired(root, n);
            &&& same_tree(m.scopes, after.scopes)
            &&& scopes_wf(after.scopes)
            &&& after.timers.len() == MAX_TIMERS
            &&& forall|k: int|
                0 <= k < MAX_TIMERS ==> #[trigger] after.timers[k] == if k < n && timer_goes(m, root, k) {
                    Timer { generation: m.timers[k].generation, ..Timer::empty_spec() }
                } else {
                    m.timers[k]
                }
            &&& objects == how_many(|k: int| timer_goes(m, root, k), n as int)
            &&& objects <= n
            &&& after.endpoints == m.endpoints
            &&& after.signals == m.signals
        }),
    decreases n,
{
    if n > 0 {
        timers_go(m, root, (n - 1) as nat);
        let before = m.timers_retired(root, (n - 1) as nat).0;
        let i = n - 1;
        let v = m.timers[i];
        assert(before.timers[i] == v);
        within_same_tree(m.scopes, before.scopes, root, v.owner_scope as int);
        a_perimeter_is_what_leads_up_to_it(m.scopes, root, v.owner_scope as int);
        if timer_goes(m, root, i) {
            let o = ObjRef {
                kind: ObjKind::Timer,
                index: i as u16,
                generation: v.generation,
            };
            withdrawing_keeps(before, MAX_DOMAINS as nat, o);
            let cut = before.withdrawn_everywhere(o, MAX_DOMAINS as nat);
            released_keeps_tree(cut.scopes, v.owner_scope as int, Resource::Metadata, 1);
        }
    }
}

/// Retiring a scope ends every endpoint that a scope of its perimeter owns, leaves every
/// other endpoint as it was, and reports as many as went.
pub proof fn retiring_ends_the_endpoints_of_its_perimeter(m: MachineModel, root: int)
    requires
        m.wf(),
    ensures
        ({
            let (after, objects) = m.endpoints_retired(root, MAX_ENDPOINTS as nat);
            &&& forall|k: int|
                0 <= k < MAX_ENDPOINTS ==> (#[trigger] after.endpoints[k]).used == (m.endpoints[k].used
                    && !lies_in(m.scopes, root, m.endpoints[k].owner_scope as int))
            &&& forall|k: int|
                0 <= k < MAX_ENDPOINTS && (#[trigger] after.endpoints[k]).used ==> after.endpoints[k]
                    == m.endpoints[k]
            &&& objects == how_many(|k: int| endpoint_goes(m, root, k), MAX_ENDPOINTS as int)
            &&& after.signals == m.signals
            &&& after.timers == m.timers
        }),
{
    endpoints_go(m, root, MAX_ENDPOINTS as nat);
}

/// Retiring a scope ends every signal that a scope of its perimeter owns, leaves every
/// other signal as it was, and reports as many as went.
pub proof fn retiring_ends_the_signals_of_its_perimeter(m: MachineModel, root: int)
    requires
        m.wf(),
    ensures
        ({
            let (after, objects) = m.signals_retired(root, MAX_SIGNALS as nat);
            &&& forall|k: int|
                0 <= k < MAX_SIGNALS ==> (#[trigger] after.signals[k]).used == (m.signals[k].used
                    && !lies_in(m.scopes, root, m.signals[k].owner_scope as int))
            &&& forall|k: int|
                0 <= k < MAX_SIGNALS && (#[trigger] after.signals[k]).used ==> after.signals[k]
                    == m.signals[k]
            &&& objects == how_many(|k: int| signal_goes(m, root, k), MAX_SIGNALS as int)
            &&& after.endpoints == m.endpoints
            &&& after.timers == m.timers
        }),
{
    signals_go(m, root, MAX_SIGNALS as nat);
}

/// Retiring a scope ends every timer that a scope of its perimeter owns, leaves every
/// other timer as it was, and reports as many as went.
pub proof fn retiring_ends_the_timers_of_its_perimeter(m: MachineModel, root: int)
    requires
        m.wf(),
    ensures
        ({
            let (after, objects) = m.timers_retired(root, MAX_TIMERS as nat);
            &&& forall|k: int|
                0 <= k < MAX_TIMERS ==> (#[trigger] after.timers[k]).used == (m.timers[k].used
                    && !lies_in(m.scopes, root, m.timers[k].owner_scope as int))
            &&& forall|k: int|
                0 <= k < MAX_TIMERS && (#[trigger] after.timers[k]).used ==> after.timers[k]
                    == m.timers[k]
            &&& objects == how_many(|k: int| timer_goes(m, root, k), MAX_TIMERS as int)
            &&& after.endpoints == m.endpoints
            &&& after.signals == m.signals
        }),
{
    timers_go(m, root, MAX_TIMERS as nat);
}

/// The tables of memory objects agree but for one object, and the scopes lie as they
/// lay.
spec fn others_stay(a: MachineModel, b: MachineModel, i: int) -> bool {
    &&& same_tree(a.scopes, b.scopes)
    &&& scopes_wf(b.scopes)
    &&& a.memories.len() == b.memories.len()
    &&& forall|k: int|
        0 <= k < a.memories.len() && k != i ==> #[trigger] b.memories[k] == a.memories[k]
}

proof fn collecting_spares(m: MachineModel, g: u16, steps: nat, i: int)
    requires
        scopes_wf(m.scopes),
    ensures
        others_stay(m, m.collect_grant(g, steps), i),
    decreases steps,
{
    if steps > 0 && g != NO_GRANT && m.is_idle_grant(g as int) {
        let node = m.grants[g as int];
        released_keeps_tree(m.scopes, node.sponsor as int, Resource::Metadata, 1);
        collecting_spares(m.free_grant(g as int), node.parent, (steps - 1) as nat, i);
    }
}

proof fn freeing_spares(m: MachineModel, i: int)
    requires
        scopes_wf(m.scopes),
        0 <= i < m.memories.len(),
    ensures
        others_stay(m, m.collect_memory(i, false), i),
{
    let object = m.memories[i];
    let s = object.sponsor as int;
    released_keeps_tree(m.scopes, s, Resource::MemoryPages, object.pages as u64);
    let once = released(m.scopes, s, Resource::MemoryPages, object.pages as u64);
    released_keeps_tree(once, s, Resource::Metadata, 1);
}

proof fn releasing_spares(m: MachineModel, domain: int, slot: int, o: ObjRef)
    requires
        scopes_wf(m.scopes),
        o.kind == ObjKind::Memory,
        o.index < m.memories.len(),
        m.caps[cap_at(domain, slot)].object == o,
    ensures
        others_stay(m, m.release_slot(domain, slot), o.index as int),
{
    let entry = m.caps[cap_at(domain, slot)];
    let i = o.index as int;
    if entry.live {
        let cut = MachineModel {
            caps: crate::obj::without_cap(m.caps, domain, slot),
            ..m
        };
        let s = cut.domains[domain].owner_scope;
        released_keeps_tree(cut.scopes, s as int, Resource::Metadata, 1);
        let unpaid = cut.uncharge(s, Resource::Metadata, 1).count_grant(
            entry.grant,
            false,
        ).count_ref(entry.object, false);
        freeing_spares(unpaid, i);
        let collected = if unpaid.memories[i].generation == o.generation {
            unpaid.collect_memory(i, false)
        } else {
            unpaid
        };
        collecting_spares(collected, entry.grant, MAX_DERIVE_DEPTH as nat, i);
    }
}

proof fn slots_spare(m: MachineModel, domain: int, n: nat, o: ObjRef)
    requires
        scopes_wf(m.scopes),
        o.kind == ObjKind::Memory,
        o.index < m.memories.len(),
    ensures
        others_stay(m, m.withdrawn_slots(o, domain, n), o.index as int),
    decreases n,
{
    if n > 0 {
        slots_spare(m, domain, (n - 1) as nat, o);
        let before = m.withdrawn_slots(o, domain, (n - 1) as nat);
        let entry = before.caps[cap_at(domain, n - 1)];
        if entry.live && entry.object == o {
            releasing_spares(before, domain, n - 1, o);
        }
    }
}

proof fn withdrawing_spares(m: MachineModel, n: nat, o: ObjRef)
    requires
        scopes_wf(m.scopes),
        o.kind == ObjKind::Memory,
        o.index < m.memories.len(),
    ensures
        others_stay(m, m.withdrawn_everywhere(o, n), o.index as int),
    decreases n,
{
    if n > 0 {
        withdrawing_spares(m, (n - 1) as nat, o);
        let before = m.withdrawn_everywhere(o, (n - 1) as nat);
        if before.domains[n - 1].state != DomainState::Empty {
            slots_spare(before, n - 1, MAX_CAPS as nat, o);
        }
    }
}

/// A memory object goes with the perimeter of its sponsor, once nothing maps it.
pub open spec fn memory_goes(m: MachineModel, root: int, k: int) -> bool {
    let object = m.memories[k];
    &&& object.state != MemState::Empty
    &&& object.map_count == 0
    &&& lies_in(m.scopes, root, object.sponsor as int)
}

proof fn memories_go(m: MachineModel, root: int, n: nat)
    requires
        scopes_wf(m.scopes),
        m.memories.len() == MAX_MEMORY_OBJECTS,
        forall|k: int|
            0 <= k < MAX_MEMORY_OBJECTS ==> (#[trigger] m.memories[k]).sponsor < MAX_SCOPES,
        n <= MAX_MEMORY_OBJECTS,
    ensures
        ({
            let (after, _, objects) = m.memories_retired(root, n);
            &&& same_tree(m.scopes, after.scopes)
            &&& scopes_wf(after.scopes)
            &&& after.memories.len() == MAX_MEMORY_OBJECTS
            &&& forall|k: int|
                0 <= k < n && memory_goes(m, root, k) ==> (#[trigger] after.memories[k]).state
                    == MemState::Empty
            &&& forall|k: int|
                0 <= k < MAX_MEMORY_OBJECTS && !(k < n && memory_goes(m, root, k))
                    ==> #[trigger] after.memories[k] == m.memories[k]
            &&& objects == how_many(|k: int| memory_goes(m, root, k), n as int)
            &&& objects <= n
        }),
    decreases n,
{
    if n > 0 {
        memories_go(m, root, (n - 1) as nat);
        let before = m.memories_retired(root, (n - 1) as nat).0;
        let i = n - 1;
        let object = m.memories[i];
        assert(before.memories[i] == object);
        let s = object.sponsor as int;
        within_same_tree(m.scopes, before.scopes, root, s);
        a_perimeter_is_what_leads_up_to_it(m.scopes, root, s);
        if memory_goes(m, root, i) {
            let o = ObjRef {
                kind: ObjKind::Memory,
                index: i as u16,
                generation: object.generation,
            };
            withdrawing_spares(before, MAX_DOMAINS as nat, o);
            let cut = before.withdrawn_everywhere(o, MAX_DOMAINS as nat);
            released_keeps_tree(cut.scopes, s, Resource::MemoryPages, object.pages as u64);
            let once = released(cut.scopes, s, Resource::MemoryPages, object.pages as u64);
            released_keeps_tree(once, s, Resource::Metadata, 1);
        }
    }
}

/// Retiring a scope frees every memory object that a scope of its perimeter sponsors
/// and that nothing maps, leaves every other object as it was, and reports as many as
/// went.
pub proof fn retiring_frees_the_memory_of_its_perimeter(m: MachineModel, root: int)
    requires
        m.wf(),
    ensures
        ({
            let (after, _, objects) = m.memories_retired(root, MAX_MEMORY_OBJECTS as nat);
            &&& forall|k: int|
                0 <= k < MAX_MEMORY_OBJECTS && memory_goes(m, root, k) ==> (
                #[trigger] after.memories[k]).state == MemState::Empty
            &&& forall|k: int|
                0 <= k < MAX_MEMORY_OBJECTS && !memory_goes(m, root, k)
                    ==> #[trigger] after.memories[k] == m.memories[k]
            &&& objects == how_many(
                |k: int| memory_goes(m, root, k),
                MAX_MEMORY_OBJECTS as int,
            )
        }),
{
    assert forall|k: int| 0 <= k < MAX_MEMORY_OBJECTS implies (#[trigger] m.memories[k]).sponsor
        < MAX_SCOPES by {
        assert(memory_ok(m.memories[k]));
    }
    memories_go(m, root, MAX_MEMORY_OBJECTS as nat);
}

} // verus!
