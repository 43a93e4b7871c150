//! The first supervisor: what it is given before it runs.

use vstd::prelude::*;

use crate::abi::boot_slot;
use crate::api::capops::free_node_is_unused;
use crate::api::memops::first_memory;
use crate::api::scopeops::first_scope;
use crate::k2boot::image_load;
use crate::laws::memory::object_is_free;
use crate::limits::{MAX_CAPS, MAX_DOMAINS, MAX_GRANTS, MAX_MEMORY_OBJECTS, MAX_SCOPES};
use crate::obj::{ObjKind, ObjRef, NO_GRANT};
use crate::protocol::BootModule;
use crate::scope::{Limits, State};
use crate::state::MachineModel;

verus! {

/// The table of handles has all its rows.
spec fn has_rows(m: MachineModel) -> bool {
    m.caps.len() == MAX_DOMAINS * MAX_CAPS
}

proof fn giving_fills_a_slot(
    m: MachineModel,
    d: int,
    slot: u32,
    object: ObjRef,
    rights: u32,
    sponsor: u16,
)
    requires
        has_rows(m),
        0 <= d < MAX_DOMAINS,
        slot < MAX_CAPS,
        m.given(d, slot, object, rights, sponsor).1 is Some,
    ensures
        ({
            let after = m.given(d, slot, object, rights, sponsor).0;
            let at = d * MAX_CAPS + slot;
            &&& has_rows(after)
            &&& 0 <= at < m.caps.len()
            &&& after.caps[at].live
            &&& after.caps[at].object == object
            &&& forall|k: int|
                0 <= k < m.caps.len() && k != at ==> #[trigger] after.caps[k] == m.caps[k]
            &&& after.system_log == m.system_log
        }),
{
    assert(0 <= d * MAX_CAPS + slot < MAX_DOMAINS * MAX_CAPS) by (nonlinear_arith)
        requires
            0 <= d < MAX_DOMAINS,
            0 <= slot < MAX_CAPS,
    ;
}

/// What the supervisor is given stands in the slot that it is told, names that
/// object, and carries just those rights, by a grant of its own that was free and
/// that no other grant stands above. Every other handle stays what it was.
pub proof fn a_gift_is_where_it_is_looked_for(
    m: MachineModel,
    d: int,
    slot: u32,
    object: ObjRef,
    rights: u32,
    sponsor: u16,
)
    requires
        m.wf(),
        0 <= d < MAX_DOMAINS,
        slot < MAX_CAPS,
        sponsor < MAX_SCOPES,
        m.given(d, slot, object, rights, sponsor).1 is Some,
    ensures
        ({
            let (after, handle) = m.given(d, slot, object, rights, sponsor);
            let at = d * MAX_CAPS + slot;
            let entry = after.caps[at];
            let g = entry.grant as int;
            &&& !m.caps[at].live
            &&& entry.live
            &&& entry.object == object
            &&& handle->0 as int % 0x1_0000_0000 == slot
            &&& handle->0 as int / 0x1_0000_0000 == entry.generation
            &&& g < MAX_GRANTS
            &&& !m.grants[g].used
            &&& after.grants[g].used
            &&& after.grants[g].object == object
            &&& after.grants[g].rights == rights
            &&& after.grants[g].parent == NO_GRANT
            &&& after.grants[g].life_scope is None
            &&& after.grants[g].deadline_ns == 0
            &&& after.grants[g].sponsor == sponsor
            &&& forall|k: int|
                0 <= k < m.caps.len() && k != at ==> #[trigger] after.caps[k] == m.caps[k]
            &&& forall|k: int|
                0 <= k < MAX_GRANTS && k != g ==> #[trigger] after.grants[k] == m.grants[k]
        }),
{
    free_node_is_unused(m);
    giving_fills_a_slot(m, d, slot, object, rights, sponsor);
}

/// A supervisor whose manifest is whole finds its own domain, the scope that its
/// children are carved out of and the control log, each in its slot.
pub proof fn the_manifest_names_what_it_should(m: MachineModel, d: int, system: u16, own: u16)
    requires
        m.wf(),
        0 <= d < MAX_DOMAINS,
        system < MAX_SCOPES,
        own < MAX_SCOPES,
        m.manifest(d, system, own).1,
    ensures
        ({
            let after = m.manifest(d, system, own).0;
            let at = d * MAX_CAPS;
            &&& after.caps[at].live
            &&& after.caps[at].object.kind == ObjKind::Domain
            &&& after.caps[at].object.index == d
            &&& after.caps[at].object.generation == m.domains[d].generation
            &&& after.caps[at + 1].live
            &&& after.caps[at + 1].object.kind == ObjKind::Scope
            &&& after.caps[at + 1].object.index == system
            &&& after.caps[at + 2].live
            &&& after.caps[at + 2].object.kind == ObjKind::ControlLog
            &&& m.system_log == Some(after.caps[at + 2].object.index)
            &&& forall|k: int|
                0 <= k < m.caps.len() && !(at <= k < at + 3) ==> #[trigger] after.caps[k]
                    == m.caps[k]
        }),
{
    let first = ObjRef {
        kind: ObjKind::Domain,
        index: d as u16,
        generation: m.domains[d].generation,
    };
    giving_fills_a_slot(m, d, boot_slot::SELF_DOMAIN, first, ObjKind::Domain.mask_spec(), own);
    let a = m.given(d, boot_slot::SELF_DOMAIN, first, ObjKind::Domain.mask_spec(), own).0;
    let second = ObjRef {
        kind: ObjKind::Scope,
        index: system,
        generation: a.scopes[system as int].generation,
    };
    giving_fills_a_slot(a, d, boot_slot::SELF_SCOPE, second, ObjKind::Scope.mask_spec(), own);
    let b = a.given(d, boot_slot::SELF_SCOPE, second, ObjKind::Scope.mask_spec(), own).0;
    let l = b.system_log->0;
    let third = ObjRef {
        kind: ObjKind::ControlLog,
        index: l,
        generation: b.logs[l as int].generation,
    };
    giving_fills_a_slot(
        b,
        d,
        boot_slot::CONTROL_LOG,
        third,
        ObjKind::ControlLog.mask_spec(),
        own,
    );
}

/// The bytes of a boot module go where its object has its frames: from where the
/// module was loaded, all of them, to the first frame of the object.
pub proof fn a_module_is_copied_into_its_object(m: MachineModel, sponsor: u16, module: BootModule)
    requires
        m.wf(),
        sponsor < MAX_SCOPES,
        m.can_hold(sponsor, module.length),
    ensures
        ({
            let i = first_memory(m.memories, 0);
            let load = image_load(m, module);
            let made = m.image_made(sponsor, module).memories[i];
            &&& 0 <= i < MAX_MEMORY_OBJECTS
            &&& load.phys_base == module.phys_base
            &&& load.length == module.length
            &&& load.frame == made.base
            &&& load.length <= made.pages * 0x1000
        }),
{
    object_is_free(m.memories, 0);
}

proof fn a_scope_is_free(m: MachineModel, from: int)
    requires
        0 <= from <= MAX_SCOPES,
    ensures
        from <= first_scope(m.scopes, from) <= MAX_SCOPES,
        first_scope(m.scopes, from) < MAX_SCOPES ==> m.scopes[first_scope(m.scopes, from)].state
            == State::Empty,
    decreases MAX_SCOPES - from,
{
    if from < MAX_SCOPES {
        a_scope_is_free(m, from + 1);
    }
}

/// A scope made at boot lies right under its parent, is open, has the limits it was
/// given and has used nothing. It takes a row that was free.
pub proof fn a_boot_scope_lies_under_its_parent(
    m: MachineModel,
    parent: u16,
    label: Seq<u8>,
    limits: Limits,
)
    requires
        m.wf(),
        parent < MAX_SCOPES,
        m.scopes[parent as int].state != State::Empty,
        m.child_made(parent, label, limits) is Some,
    ensures
        ({
            let (after, i) = m.child_made(parent, label, limits)->0;
            let made = after.scopes[i as int];
            &&& i < MAX_SCOPES
            &&& i != parent
            &&& m.scopes[i as int].state == State::Empty
            &&& made.state == State::Open
            &&& made.parent == Some(parent)
            &&& made.id == m.next_id
            &&& made.limits == limits
            &&& made.memory_pages == 0
            &&& made.metadata == 0
            &&& made.queue_bytes == 0
            &&& made.children == 0
            &&& after.next_id == m.next_id + 1
        }),
{
    a_scope_is_free(m, 0);
}

} // verus!
