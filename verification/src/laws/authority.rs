//! What a handle permits, and what deriving, copying, fencing and closing do to
//! it.

use vstd::prelude::*;

use crate::abi::object_type;
use crate::abi::request::{CapInfo, DeriveRequest};
use crate::abi::status::Status;
use crate::api::capops::{any_ctx_ok, free_node_is_unused};
use crate::api::scopeops::release_slot_touches_one;
use crate::api::{descends, lineage, Ctx};
use crate::laws::how_many;
use crate::limits::{MAX_CAPS, MAX_DERIVE_DEPTH, MAX_DOMAINS, MAX_GRANTS};
use crate::obj::{cap_at, CapEntry, Grant, ObjKind, ObjRef, NO_GRANT};
use crate::scope::{Scope, State as ScopeState};
use crate::state::{DomainState, MachineModel};

verus! {

/// The grant `n` steps above a grant.
pub open spec fn above(grants: Seq<Grant>, g: u16, n: nat) -> u16
    decreases n,
{
    if n == 0 {
        g
    } else {
        grants[above(grants, g, (n - 1) as nat) as int].parent
    }
}

proof fn above_steps(grants: Seq<Grant>, g: u16, n: nat)
    ensures
        above(grants, g, n + 1) == above(grants, grants[g as int].parent, n),
    decreases n,
{
    reveal_with_fuel(above, 3);
    if n > 0 {
        above_steps(grants, g, (n - 1) as nat);
    }
}

/// A grant by itself permits something now: it is there, no barrier stands on it,
/// its time is not over, and the scopes it depends on are open.
pub open spec fn stands_open(grants: Seq<Grant>, scopes: Seq<Scope>, g: u16, now: u64) -> bool {
    let node = grants[g as int];
    &&& g < MAX_GRANTS
    &&& node.used
    &&& !node.fenced
    &&& node.deadline_ns == 0 || now < node.deadline_ns
    &&& node.life_scope matches Some(s) ==> scopes[s as int].state == ScopeState::Open
    &&& scopes[node.sponsor as int].state == ScopeState::Open
}

/// A grant and every grant above it permits something now, and `n` of them lead
/// to the root.
pub open spec fn open_to_the_root(
    grants: Seq<Grant>,
    scopes: Seq<Scope>,
    g: u16,
    now: u64,
    n: nat,
) -> bool {
    &&& above(grants, g, n) == NO_GRANT
    &&& forall|k: nat|
        k < n ==> #[trigger] above(grants, g, k) != NO_GRANT && stands_open(
            grants,
            scopes,
            above(grants, g, k),
            now,
        )
}

proof fn lineage_is_open(
    grants: Seq<Grant>,
    scopes: Seq<Scope>,
    g: u16,
    now: u64,
    steps: nat,
)
    ensures
        lineage(grants, scopes, g, now, steps) == Status::Success <==> exists|n: nat|
            n <= steps && #[trigger] open_to_the_root(grants, scopes, g, now, n),
    decreases steps,
{
    if g == NO_GRANT {
        assert(above(grants, g, 0) == NO_GRANT);
        assert(open_to_the_root(grants, scopes, g, now, 0));
    } else {
        if steps > 0 {
            let up = grants[g as int].parent;
            lineage_is_open(grants, scopes, up, now, (steps - 1) as nat);
            if lineage(grants, scopes, g, now, steps) == Status::Success {
                let n = choose|n: nat|
                    n <= steps - 1 && #[trigger] open_to_the_root(grants, scopes, up, now, n);
                above_steps(grants, g, n);
                assert forall|k: nat| k < n + 1 implies #[trigger] above(grants, g, k) != NO_GRANT
                    && stands_open(grants, scopes, above(grants, g, k), now) by {
                    if k > 0 {
                        above_steps(grants, g, (k - 1) as nat);
                        assert(above(grants, up, (k - 1) as nat) != NO_GRANT);
                    }
                }
                assert(open_to_the_root(grants, scopes, g, now, n + 1));
            }
        }
        if exists|n: nat| n <= steps && #[trigger] open_to_the_root(grants, scopes, g, now, n) {
            let n = choose|n: nat|
                n <= steps && #[trigger] open_to_the_root(grants, scopes, g, now, n);
            assert(n > 0) by {
                assert(above(grants, g, 0) == g);
            }
            assert(above(grants, g, 0) != NO_GRANT);
            let up = grants[g as int].parent;
            above_steps(grants, g, (n - 1) as nat);
            assert forall|k: nat| k < n - 1 implies #[trigger] above(grants, up, k) != NO_GRANT
                && stands_open(grants, scopes, above(grants, up, k), now) by {
                above_steps(grants, g, k);
                assert(above(grants, g, k + 1) != NO_GRANT);
            }
            assert(open_to_the_root(grants, scopes, up, now, (n - 1) as nat));
        }
    }
}

/// The object is there, and is the one that was meant.
pub open spec fn is_there(m: MachineModel, o: ObjRef) -> bool {
    let i = o.index as int;
    match o.kind {
        ObjKind::Scope => i < m.scopes.len() && m.scopes[i].generation == o.generation
            && m.scopes[i].state != ScopeState::Empty,
        ObjKind::Domain => i < m.domains.len() && m.domains[i].generation == o.generation
            && m.domains[i].state != DomainState::Empty,
        ObjKind::Memory => i < m.memories.len() && m.memories[i].generation == o.generation
            && m.memories[i].state != crate::memobj::State::Empty,
        ObjKind::Endpoint => i < m.endpoints.len() && m.endpoints[i].generation == o.generation
            && m.endpoints[i].used,
        ObjKind::Invocation => i < m.invocations.len() && m.invocations[i].generation
            == o.generation && m.invocations[i].state != crate::ipc::State::Empty,
        ObjKind::Signal => i < m.signals.len() && m.signals[i].generation == o.generation
            && m.signals[i].used,
        ObjKind::Timer => i < m.timers.len() && m.timers[i].generation == o.generation
            && m.timers[i].used,
        ObjKind::ControlLog => i < m.logs.len() && m.logs[i].generation == o.generation
            && m.logs[i].used,
        ObjKind::Device => i < m.devices.len() && m.devices[i].generation == o.generation
            && m.devices[i].used,
    }
}

/// What a handle of a domain has to be to permit some rights to an object of some
/// kind now, and the entry it names.
pub open spec fn names_entry(
    m: MachineModel,
    domain: int,
    handle: u64,
    required_type: u32,
    required_rights: u32,
    now: u64,
    entry: CapEntry,
) -> bool {
    let slot = handle as int % 0x1_0000_0000;
    let node = m.grants[entry.grant as int];
    &&& slot < MAX_CAPS
    &&& entry == m.caps[domain * MAX_CAPS + slot]
    &&& entry.live
    &&& entry.generation == handle as int / 0x1_0000_0000
    &&& required_type == object_type::NONE || entry.object.kind.type_spec() == required_type
    &&& entry.grant < MAX_GRANTS
    &&& node.used
    &&& node.object == entry.object
    &&& node.rights & required_rights == required_rights
    &&& is_there(m, entry.object)
    &&& exists|n: nat|
        n <= MAX_DERIVE_DEPTH + 1 && #[trigger] open_to_the_root(
            m.grants,
            m.scopes,
            entry.grant,
            now,
            n,
        )
}

/// Authority is what the tables say: a handle is accepted exactly where its own
/// entry is live and of its generation, the object is there and of the kind, the
/// grant has every right asked for, and it and every grant above it is open. What
/// is accepted is that entry's.
pub proof fn a_handle_permits_what_its_entry_says(
    m: MachineModel,
    domain: int,
    handle: u64,
    required_type: u32,
    required_rights: u32,
    now: u64,
)
    requires
        m.wf(),
        0 <= domain < MAX_DOMAINS,
    ensures
        match m.resolved(domain, handle, required_type, required_rights, now) {
            Ok(cap) => exists|entry: CapEntry|
                {
                    &&& #[trigger] names_entry(
                        m,
                        domain,
                        handle,
                        required_type,
                        required_rights,
                        now,
                        entry,
                    )
                    &&& cap.slot == handle as int % 0x1_0000_0000
                    &&& cap.object == entry.object
                    &&& cap.grant == entry.grant
                    &&& cap.rights == m.grants[entry.grant as int].rights
                    &&& cap.facet == m.grants[entry.grant as int].facet
                },
            Err(code) => {
                &&& code != Status::Success
                &&& forall|entry: CapEntry|
                    !(#[trigger] names_entry(
                        m,
                        domain,
                        handle,
                        required_type,
                        required_rights,
                        now,
                        entry,
                    ))
            },
        },
{
    let slot = crate::abi::slot_of(handle) as int;
    let entry = m.caps[cap_at(domain, slot)];
    lineage_is_open(m.grants, m.scopes, entry.grant, now, (MAX_DERIVE_DEPTH + 1) as nat);
    assert(is_there(m, entry.object) == m.alive(entry.object));
    if m.resolved(domain, handle, required_type, required_rights, now) is Ok {
        assert(names_entry(m, domain, handle, required_type, required_rights, now, entry));
    } else {
        assert forall|other: CapEntry|
            !(#[trigger] names_entry(
                m,
                domain,
                handle,
                required_type,
                required_rights,
                now,
                other,
            )) by {
            if names_entry(m, domain, handle, required_type, required_rights, now, other) {
                assert(other == entry);
                assert(node_has(m, entry, required_rights));
            }
        }
    }
}

spec fn node_has(m: MachineModel, entry: CapEntry, rights: u32) -> bool {
    m.grants[entry.grant as int].rights & rights == rights
}

/// A barrier reaches what descends from the grant and nothing else: a grant that
/// changes has the fenced one at the end of its way up, and all that changes is
/// that it is now fenced. The answer is how many did.
pub proof fn a_fence_reaches_descendants_only(m: MachineModel, ctx: Ctx, g: u16)
    requires
        m.wf(),
        any_ctx_ok(ctx),
        g < MAX_GRANTS,
    ensures
        ({
            let after = m.cap_fenced(ctx);
            let root = ctx.cap.grant;
            let before = m.grants[g as int];
            let now = after.grants[g as int];
            &&& after.grants.len() == m.grants.len()
            &&& after.caps == m.caps
            &&& now == before || now == (Grant { fenced: true, ..before }) && !before.fenced
            &&& now != before ==> exists|n: nat| #[trigger] above(m.grants, g, n) == root
            &&& (forall|n: nat| #[trigger] above(m.grants, g, n) != root) ==> now == before
            &&& m.fenceable(root, MAX_GRANTS as int) == how_many(
                |k: int| after.grants[k].fenced && !m.grants[k].fenced,
                MAX_GRANTS as int,
            )
        }),
{
    let root = ctx.cap.grant;
    let after = m.cap_fenced(ctx);
    assert(after.grants == m.lineage_fenced(root).grants);
    if after.grants[g as int] != m.grants[g as int] {
        descent_is_a_way(m.grants, root, g, (MAX_DERIVE_DEPTH + 2) as nat);
    }
    fenceable_is_counted(m, root, MAX_GRANTS as int, after.grants);
}

/// Whatever descends from a fenced grant within the depth that deriving allows is
/// fenced with it.
pub proof fn a_fence_reaches_every_descendant(m: MachineModel, ctx: Ctx, g: u16, n: nat)
    requires
        m.wf(),
        any_ctx_ok(ctx),
        g < MAX_GRANTS,
        n <= MAX_DERIVE_DEPTH,
        above(m.grants, g, n) == ctx.cap.grant,
        forall|k: nat| k <= n ==> #[trigger] above(m.grants, g, k) < MAX_GRANTS,
        forall|k: nat| k <= n ==> m.grants[#[trigger] above(m.grants, g, k) as int].used,
    ensures
        m.cap_fenced(ctx).grants[g as int].fenced,
{
    let after = m.cap_fenced(ctx);
    assert(after.grants == m.lineage_fenced(ctx.cap.grant).grants);
    way_is_a_descent(m.grants, ctx.cap.grant, g, n, (MAX_DERIVE_DEPTH + 2) as nat);
    assert(above(m.grants, g, 0) == g);
}

proof fn way_is_a_descent(grants: Seq<Grant>, root: u16, g: u16, n: nat, steps: nat)
    requires
        n < steps,
        above(grants, g, n) == root,
        forall|k: nat| k <= n ==> #[trigger] above(grants, g, k) < MAX_GRANTS,
        forall|k: nat| k <= n ==> grants[#[trigger] above(grants, g, k) as int].used,
    ensures
        descends(grants, root, g, steps),
    decreases n,
{
    assert(above(grants, g, 0) == g);
    if n > 0 {
        let up = grants[g as int].parent;
        above_steps(grants, g, (n - 1) as nat);
        assert forall|k: nat| k <= n - 1 implies #[trigger] above(grants, up, k) < MAX_GRANTS
            && grants[above(grants, up, k) as int].used by {
            above_steps(grants, g, k);
            assert(above(grants, g, k + 1) < MAX_GRANTS);
        }
        way_is_a_descent(grants, root, up, (n - 1) as nat, (steps - 1) as nat);
    }
}

proof fn descent_is_a_way(grants: Seq<Grant>, root: u16, g: u16, steps: nat)
    requires
        descends(grants, root, g, steps),
    ensures
        exists|n: nat| #[trigger] above(grants, g, n) == root,
    decreases steps,
{
    if g == root {
        assert(above(grants, g, 0) == root);
    } else {
        let up = grants[g as int].parent;
        descent_is_a_way(grants, root, up, (steps - 1) as nat);
        let n = choose|n: nat| #[trigger] above(grants, up, n) == root;
        above_steps(grants, g, n);
        assert(above(grants, g, n + 1) == root);
    }
}

proof fn fenceable_is_counted(m: MachineModel, root: u16, n: int, fenced: Seq<Grant>)
    requires
        n <= m.grants.len(),
        fenced == m.lineage_fenced(root).grants,
        fenced.len() == m.grants.len(),
    ensures
        m.fenceable(root, n) == how_many(|k: int| fenced[k].fenced && !m.grants[k].fenced, n),
    decreases n,
{
    if n > 0 {
        fenceable_is_counted(m, root, n - 1, fenced);
    }
}

/// A capability that is made names the object with exactly the rights, the time,
/// the scope and the facet asked for, in a slot of its domain that was free and by
/// a grant that was free. Its handle is of that slot, every other handle of every
/// domain stays what it was, and every other grant but the parent, which counts
/// its child.
pub proof fn a_new_capability_is_what_was_asked_for(
    m: MachineModel,
    domain: int,
    parent: u16,
    object: ObjRef,
    rights: u32,
    deadline_ns: u64,
    life_scope: Option<u16>,
    facet: u64,
)
    requires
        m.wf(),
        0 <= domain < MAX_DOMAINS,
        m.can_mint(domain, parent),
        parent == NO_GRANT || parent < MAX_GRANTS && m.grants[parent as int].used,
    ensures
        ({
            let after = m.minted(
                domain,
                parent,
                object,
                rights,
                deadline_ns,
                life_scope,
                facet,
            );
            let handle = m.minted_handle(domain);
            let at = domain * MAX_CAPS + handle as int % 0x1_0000_0000;
            let entry = after.caps[at];
            let g = entry.grant as int;
            &&& handle as int % 0x1_0000_0000 < MAX_CAPS
            &&& !m.caps[at].live
            &&& entry.live
            &&& entry.object == object
            &&& entry.generation == handle as int / 0x1_0000_0000
            &&& entry.generation == m.caps[at].generation + 1
            &&& after.caps.len() == m.caps.len()
            &&& forall|k: int|
                0 <= k < m.caps.len() && k != at ==> #[trigger] after.caps[k] == m.caps[k]
            &&& g < MAX_GRANTS
            &&& !m.grants[g].used
            &&& after.grants[g].used
            &&& after.grants[g].object == object
            &&& after.grants[g].rights == rights
            &&& after.grants[g].deadline_ns == deadline_ns
            &&& after.grants[g].life_scope == life_scope
            &&& after.grants[g].facet == facet
            &&& after.grants[g].parent == parent
            &&& !after.grants[g].fenced
            &&& after.grants[g].refs == 1
            &&& after.grants[g].children == 0
            &&& after.grants[g].id == m.next_id
            &&& after.grants[g].sponsor == m.domains[domain].owner_scope
            &&& after.grants[g].depth == if parent == NO_GRANT {
                0
            } else {
                m.grants[parent as int].depth + 1
            }
            &&& forall|k: int|
                0 <= k < MAX_GRANTS && k != g && k != parent ==> #[trigger] after.grants[k]
                    == m.grants[k]
            &&& parent < MAX_GRANTS ==> after.grants[parent as int] == (Grant {
                children: after.grants[parent as int].children,
                ..m.grants[parent as int]
            })
            &&& parent < MAX_GRANTS && m.grants[parent as int].children < u32::MAX
                ==> after.grants[parent as int].children == m.grants[parent as int].children + 1
        }),
{
    free_node_is_unused(m);
    let slot = m.slot_for(domain, None);
    slot_is_free(m.caps, domain, 0);
    assert(slot < MAX_CAPS);
    crate::abi::handle_round_trip(slot as u32, (m.caps[cap_at(domain, slot)].generation + 1) as u32);
    let owner = m.domains[domain].owner_scope;
    let made = m.granted(owner, parent, object, rights, deadline_ns, life_scope, facet);
    let g = m.next_grant();
    assert(made.caps == m.caps);
    let paid = made.charge(made.domains[domain].owner_scope, crate::scope::Resource::Metadata, 1);
    let filled = MachineModel {
        caps: crate::obj::with_cap(paid.caps, domain, slot, object, g as u16),
        ..paid
    };
    let counted = filled.count_grant(g as u16, true);
    let after = counted.count_ref(object, true);
    assert(after.grants == counted.grants);
    assert(after.caps == filled.caps);
}

proof fn slot_is_free(caps: Seq<CapEntry>, domain: int, from: int)
    requires
        0 <= from,
    ensures
        ({
            let s = crate::obj::first_free(caps, domain, from);
            &&& from <= s || s == MAX_CAPS
            &&& s < MAX_CAPS ==> caps[cap_at(domain, s)].is_free()
        }),
    decreases MAX_CAPS - from,
{
    if from < MAX_CAPS && !caps[cap_at(domain, from)].is_free() {
        slot_is_free(caps, domain, from + 1);
    }
}

/// Deriving takes nothing more than it was given: the child names the parent's
/// object, has the rights that were asked for, all of which the parent has, and
/// ends no later than the parent; where nothing is asked about its end, it ends
/// with the parent.
pub proof fn a_derived_capability_is_narrower(m: MachineModel, ctx: Ctx, request: DeriveRequest)
    requires
        m.wf(),
        any_ctx_ok(ctx),
        m.derive_fault(ctx, request) is None,
        m.grants[ctx.cap.grant as int].used,
    ensures
        ({
            let after = m.derived(ctx, request);
            let handle = m.minted_handle(ctx.domain as int);
            let at = ctx.domain * MAX_CAPS + handle as int % 0x1_0000_0000;
            let entry = after.caps[at];
            let parent = m.grants[ctx.cap.grant as int];
            let child = after.grants[entry.grant as int];
            &&& entry.live
            &&& entry.object == ctx.cap.object
            &&& child.object == ctx.cap.object
            &&& child.parent == ctx.cap.grant
            &&& child.rights == request.rights_mask
            &&& child.rights & parent.rights == child.rights
            &&& child.facet == parent.facet
            &&& request.deadline_ns == 0 ==> child.deadline_ns == parent.deadline_ns
            &&& request.deadline_ns != 0 ==> child.deadline_ns == request.deadline_ns
            &&& parent.deadline_ns != 0 ==> 0 < child.deadline_ns <= parent.deadline_ns
            &&& request.life_scope == 0 ==> child.life_scope == parent.life_scope
            &&& request.life_scope != 0 ==> child.life_scope is Some
        }),
{
    let parent = m.grants[ctx.cap.grant as int];
    a_new_capability_is_what_was_asked_for(
        m,
        ctx.domain as int,
        ctx.cap.grant,
        ctx.cap.object,
        request.rights_mask,
        crate::api::ipcops::narrowed_deadline(parent.deadline_ns, request.deadline_ns)->0,
        m.derived_life(ctx, request)->Ok_0,
        parent.facet,
    );
    let a = request.rights_mask;
    let b = parent.rights;
    assert(a & b == a) by (bit_vector)
        requires
            a & !b == 0,
    ;
}

/// Copying gives a second handle on the same grant: the entry is the same but for
/// its generation, no grant is made or changed but for one reference more, and
/// every other handle stays what it was.
pub proof fn a_copy_shares_its_grant(m: MachineModel, domain: int, object: ObjRef, g: u16)
    requires
        m.wf(),
        0 <= domain < MAX_DOMAINS,
        m.can_install(domain, None),
        g < MAX_GRANTS,
    ensures
        ({
            let slot = m.slot_for(domain, None);
            let after = m.install(domain, slot, object, g);
            let handle = m.fresh_handle(domain, slot);
            let at = domain * MAX_CAPS + handle as int % 0x1_0000_0000;
            &&& !m.caps[at].live
            &&& after.caps[at].live
            &&& after.caps[at].object == object
            &&& after.caps[at].grant == g
            &&& after.caps[at].generation == handle as int / 0x1_0000_0000
            &&& after.caps.len() == m.caps.len()
            &&& forall|k: int|
                0 <= k < m.caps.len() && k != at ==> #[trigger] after.caps[k] == m.caps[k]
            &&& after.grants.len() == m.grants.len()
            &&& forall|k: int|
                0 <= k < MAX_GRANTS && k != g ==> #[trigger] after.grants[k] == m.grants[k]
            &&& after.grants[g as int] == (Grant {
                refs: after.grants[g as int].refs,
                ..m.grants[g as int]
            })
            &&& m.grants[g as int].refs < u32::MAX ==> after.grants[g as int].refs
                == m.grants[g as int].refs + 1
        }),
{
    let slot = m.slot_for(domain, None);
    slot_is_free(m.caps, domain, 0);
    crate::abi::handle_round_trip(slot as u32, (m.caps[cap_at(domain, slot)].generation + 1) as u32);
    let paid = m.charge(m.domains[domain].owner_scope, crate::scope::Resource::Metadata, 1);
    let filled = MachineModel {
        caps: crate::obj::with_cap(paid.caps, domain, slot, object, g),
        ..paid
    };
    let counted = filled.count_grant(g, true);
    let after = counted.count_ref(object, true);
    assert(after.grants == counted.grants);
    assert(after.caps == filled.caps);
}

/// Closing a handle ends that handle alone.
pub proof fn closing_ends_one_handle(m: MachineModel, domain: int, handle: u64)
    requires
        m.wf(),
        0 <= domain < MAX_DOMAINS,
        handle as int % 0x1_0000_0000 < MAX_CAPS,
    ensures
        ({
            let slot = handle as int % 0x1_0000_0000;
            let after = m.release_slot(domain, crate::abi::slot_of(handle) as int);
            &&& after.caps.len() == m.caps.len()
            &&& !after.caps[domain * MAX_CAPS + slot].live
            &&& forall|k: int|
                0 <= k < m.caps.len() && k != domain * MAX_CAPS + slot
                    ==> #[trigger] after.caps[k] == m.caps[k]
        }),
{
    release_slot_touches_one(m, domain, crate::abi::slot_of(handle) as int);
}

/// Inspection tells what the tables say of the grant, and calls it live exactly
/// where it and every grant above it is open.
pub proof fn inspection_tells_what_stands(m: MachineModel, ctx: Ctx)
    requires
        m.wf(),
        any_ctx_ok(ctx),
    ensures
        ({
            let info: CapInfo = m.cap_info(ctx);
            let node = m.grants[ctx.cap.grant as int];
            &&& info.object_type == ctx.cap.object.kind.type_spec()
            &&& info.rights == node.rights
            &&& info.derive_depth == node.depth
            &&& info.grant_id == node.id
            &&& info.deadline_ns == node.deadline_ns
            &&& info.facet == node.facet
            &&& node.parent < MAX_GRANTS ==> info.parent_grant_id == m.grants[node.parent as int].id
            &&& node.parent == NO_GRANT ==> info.parent_grant_id == 0
            &&& node.life_scope matches Some(s) ==> info.life_scope_id == m.scopes[s as int].id
            &&& node.life_scope is None ==> info.life_scope_id == 0
            &&& info.lineage_state == crate::abi::cap_lineage::LIVE <==> exists|n: nat|
                n <= MAX_DERIVE_DEPTH + 1 && #[trigger] open_to_the_root(
                    m.grants,
                    m.scopes,
                    ctx.cap.grant,
                    ctx.now,
                    n,
                )
        }),
{
    lineage_is_open(
        m.grants,
        m.scopes,
        ctx.cap.grant,
        ctx.now,
        (MAX_DERIVE_DEPTH + 1) as nat,
    );
}

} // verus!
