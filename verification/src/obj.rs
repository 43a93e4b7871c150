//! Objects, the grants that authorise them, and the capability tables that name
//! them.
//!
//! A handle names a slot and a generation. A slot's generation rises each time
//! it is filled, so a handle kept from an earlier use never names a later one.

use vstd::prelude::*;

use crate::abi::{
    generation_of, handle, handle_generation, handle_of, handle_slot, object_type, slot_of,
};
use crate::limits::{MAX_CAPS, MAX_DOMAINS};

verus! {

/// Position of a grant node.
pub type GrantId = u16;

/// Position of a scope.
pub type ScopeId = u16;

/// A grant position that names no node.
pub const NO_GRANT: u16 = 0xFFFF;

/// Kinds of objects a capability can name.
#[derive(Clone, Copy, PartialEq, Eq, Debug, Structural)]
pub enum ObjKind {
    /// A scope.
    Scope,
    /// A domain.
    Domain,
    /// A memory object.
    Memory,
    /// An endpoint.
    Endpoint,
    /// An invocation.
    Invocation,
    /// A signal.
    Signal,
    /// A timer.
    Timer,
    /// A control log.
    ControlLog,
    /// A device.
    Device,
}

impl ObjKind {
    /// The number [`ObjKind::abi_type`] returns.
    pub open spec fn type_spec(self) -> u32 {
        match self {
            ObjKind::Scope => object_type::SCOPE,
            ObjKind::Domain => object_type::DOMAIN,
            ObjKind::Memory => object_type::MEMORY,
            ObjKind::Endpoint => object_type::ENDPOINT,
            ObjKind::Invocation => object_type::INVOCATION,
            ObjKind::Signal => object_type::SIGNAL,
            ObjKind::Timer => object_type::TIMER,
            ObjKind::ControlLog => object_type::CONTROL_LOG,
            ObjKind::Device => object_type::DEVICE,
        }
    }

    /// The rights [`ObjKind::rights_mask`] returns.
    pub open spec fn mask_spec(self) -> u32 {
        match self {
            ObjKind::Scope => 0x7F,
            ObjKind::Domain => 0x3F,
            ObjKind::Memory => 0x1FF,
            ObjKind::Endpoint => 0x7F,
            ObjKind::Invocation => 0xFF,
            ObjKind::Signal => 0x3F,
            ObjKind::Timer => 0x1F,
            ObjKind::ControlLog => 0x3F,
            ObjKind::Device => 0xFF,
        }
    }

    /// Number of the kind in operation codes and descriptors.
    pub fn abi_type(self) -> (number: u32)
        ensures
            number == self.type_spec(),
            number != object_type::NONE,
    {
        match self {
            ObjKind::Scope => object_type::SCOPE,
            ObjKind::Domain => object_type::DOMAIN,
            ObjKind::Memory => object_type::MEMORY,
            ObjKind::Endpoint => object_type::ENDPOINT,
            ObjKind::Invocation => object_type::INVOCATION,
            ObjKind::Signal => object_type::SIGNAL,
            ObjKind::Timer => object_type::TIMER,
            ObjKind::ControlLog => object_type::CONTROL_LOG,
            ObjKind::Device => object_type::DEVICE,
        }
    }

    /// Every right that exists for the kind.
    pub fn rights_mask(self) -> (mask: u32)
        ensures
            mask == self.mask_spec(),
    {
        match self {
            ObjKind::Scope => 0x7F,
            ObjKind::Domain => 0x3F,
            ObjKind::Memory => 0x1FF,
            ObjKind::Endpoint => 0x7F,
            ObjKind::Invocation => 0xFF,
            ObjKind::Signal => 0x3F,
            ObjKind::Timer => 0x1F,
            ObjKind::ControlLog => 0x3F,
            ObjKind::Device => 0xFF,
        }
    }
}

/// An object: its kind, its slot and the generation it had.
#[derive(Clone, Copy, PartialEq, Eq, Debug, Structural)]
pub struct ObjRef {
    /// Kind of the object.
    pub kind: ObjKind,
    /// Slot in the table of its kind.
    pub index: u16,
    /// Generation of that slot.
    pub generation: u32,
}

/// A node of the grant tree.
#[derive(Clone, Copy, PartialEq, Eq, Debug, Structural)]
pub struct Grant {
    /// Whether the node is in use.
    pub used: bool,
    /// Diagnostic identity.
    pub id: u64,
    /// Node it was derived from, or [`NO_GRANT`].
    pub parent: u16,
    /// Distance from the root of the lineage.
    pub depth: u32,
    /// What it authorises.
    pub rights: u32,
    /// When it expires, or zero.
    pub deadline_ns: u64,
    /// A scope whose end also ends the grant.
    pub life_scope: Option<u16>,
    /// Facet it carries, or zero.
    pub facet: u64,
    /// Object it authorises.
    pub object: ObjRef,
    /// Whether a barrier was placed on it.
    pub fenced: bool,
    /// Capability entries and obligations that refer to it.
    pub refs: u32,
    /// Nodes derived from it.
    pub children: u32,
    /// Scope charged for it.
    pub sponsor: u16,
}

impl Grant {
    /// A free node.
    pub open spec fn empty_spec() -> Grant {
        Grant {
            used: false,
            id: 0,
            parent: NO_GRANT,
            depth: 0,
            rights: 0,
            deadline_ns: 0,
            life_scope: None,
            facet: 0,
            object: (ObjRef { kind: ObjKind::Scope, index: 0, generation: 0 }),
            fenced: false,
            refs: 0,
            children: 0,
            sponsor: 0,
        }
    }

    /// A free node.
    pub fn empty() -> (node: Grant)
        ensures
            node == Grant::empty_spec(),
    {
        Grant {
            used: false,
            id: 0,
            parent: NO_GRANT,
            depth: 0,
            rights: 0,
            deadline_ns: 0,
            life_scope: None,
            facet: 0,
            object: ObjRef { kind: ObjKind::Scope, index: 0, generation: 0 },
            fenced: false,
            refs: 0,
            children: 0,
            sponsor: 0,
        }
    }
}

/// One slot of a capability table.
#[derive(Clone, Copy, PartialEq, Eq, Debug, Structural)]
pub struct CapEntry {
    /// Whether the slot is filled.
    pub live: bool,
    /// How often the slot was filled.
    pub generation: u32,
    /// Object the capability names.
    pub object: ObjRef,
    /// Grant that authorises it.
    pub grant: u16,
}

impl CapEntry {
    /// A slot that can be filled. A slot whose generations are used up never is
    /// again, so that no handle ever repeats.
    pub open spec fn is_free(self) -> bool {
        !self.live && self.generation < u32::MAX
    }

    /// A slot that was never filled.
    pub open spec fn empty_spec() -> CapEntry {
        CapEntry {
            live: false,
            generation: 0,
            object: (ObjRef { kind: ObjKind::Scope, index: 0, generation: 0 }),
            grant: NO_GRANT,
        }
    }

    /// A slot that was never filled.
    pub fn empty() -> (entry: CapEntry)
        ensures
            entry == CapEntry::empty_spec(),
    {
        CapEntry {
            live: false,
            generation: 0,
            object: ObjRef { kind: ObjKind::Scope, index: 0, generation: 0 },
            grant: NO_GRANT,
        }
    }
}

/// Position of slot `slot` of domain `domain` among the capability slots of all
/// domains.
pub open spec fn cap_at(domain: int, slot: int) -> int {
    domain * MAX_CAPS + slot
}

/// The capability tables of all domains, one behind the other.
pub open spec fn caps_wf(caps: Seq<CapEntry>) -> bool {
    caps.len() == MAX_DOMAINS * MAX_CAPS
}

/// The entry a handle names in a domain's table.
pub open spec fn cap_lookup(caps: Seq<CapEntry>, domain: int, value: u64) -> Option<CapEntry> {
    let slot = slot_of(value);
    if slot < MAX_CAPS {
        let entry = caps[cap_at(domain, slot as int)];
        if entry.live && entry.generation == generation_of(value) {
            Some(entry)
        } else {
            None
        }
    } else {
        None
    }
}

/// First slot from `from` on that can be filled; [`MAX_CAPS`] when there is none.
pub open spec fn first_free(caps: Seq<CapEntry>, domain: int, from: int) -> int
    decreases MAX_CAPS - from,
{
    if from >= MAX_CAPS {
        MAX_CAPS as int
    } else if caps[cap_at(domain, from)].is_free() {
        from
    } else {
        first_free(caps, domain, from + 1)
    }
}

/// Slots from `from` on that can be filled.
pub open spec fn count_free(caps: Seq<CapEntry>, domain: int, from: int) -> nat
    decreases MAX_CAPS - from,
{
    if from >= MAX_CAPS {
        0
    } else {
        (if caps[cap_at(domain, from)].is_free() {
            1nat
        } else {
            0nat
        }) + count_free(caps, domain, from + 1)
    }
}

/// The tables once `slot` is filled.
pub open spec fn with_cap(
    caps: Seq<CapEntry>,
    domain: int,
    slot: int,
    object: ObjRef,
    grant: u16,
) -> Seq<CapEntry> {
    let at = cap_at(domain, slot);
    caps.update(
        at,
        CapEntry {
            live: true,
            generation: (caps[at].generation + 1) as u32,
            object,
            grant,
        },
    )
}

/// The tables once `slot` is emptied.
pub open spec fn without_cap(caps: Seq<CapEntry>, domain: int, slot: int) -> Seq<CapEntry> {
    let at = cap_at(domain, slot);
    caps.update(at, CapEntry { live: false, ..caps[at] })
}

/// Finds the entry a handle names.
pub fn lookup(caps: &Vec<CapEntry>, domain: usize, value: u64) -> (entry: Option<CapEntry>)
    requires
        caps_wf(caps@),
        domain < MAX_DOMAINS,
    ensures
        entry == cap_lookup(caps@, domain as int, value),
{
    let slot: u32 = handle_slot(value);
    if slot as u64 >= MAX_CAPS as u64 {
        return None;
    }
    let entry = caps[domain * MAX_CAPS + slot as usize];
    if entry.live && entry.generation == handle_generation(value) {
        Some(entry)
    } else {
        None
    }
}

/// Finds the first slot that can be filled.
pub fn find_free(caps: &Vec<CapEntry>, domain: usize) -> (slot: usize)
    requires
        caps_wf(caps@),
        domain < MAX_DOMAINS,
    ensures
        slot == first_free(caps@, domain as int, 0),
        slot <= MAX_CAPS,
        slot < MAX_CAPS ==> caps@[cap_at(domain as int, slot as int)].is_free(),
{
    let mut slot: usize = 0;
    while slot < MAX_CAPS && (caps[domain * MAX_CAPS + slot].live || caps[domain * MAX_CAPS
        + slot].generation == u32::MAX)
        invariant
            caps_wf(caps@),
            domain < MAX_DOMAINS,
            slot <= MAX_CAPS,
            first_free(caps@, domain as int, 0) == first_free(caps@, domain as int, slot as int),
        decreases MAX_CAPS - slot,
    {
        slot += 1;
    }
    slot
}

/// Counts the slots that can be filled.
pub fn free_slots(caps: &Vec<CapEntry>, domain: usize) -> (count: usize)
    requires
        caps_wf(caps@),
        domain < MAX_DOMAINS,
    ensures
        count == count_free(caps@, domain as int, 0),
        count <= MAX_CAPS,
{
    let mut count: usize = 0;
    let mut slot: usize = MAX_CAPS;
    while slot > 0
        invariant
            caps_wf(caps@),
            domain < MAX_DOMAINS,
            slot <= MAX_CAPS,
            count <= MAX_CAPS - slot,
            count == count_free(caps@, domain as int, slot as int),
        decreases slot,
    {
        slot -= 1;
        if !caps[domain * MAX_CAPS + slot].live && caps[domain * MAX_CAPS + slot].generation
            < u32::MAX {
            count += 1;
        }
    }
    count
}

/// Fills a slot that can be filled and returns the handle that names it.
pub fn fill(caps: &mut Vec<CapEntry>, domain: usize, slot: usize, object: ObjRef, grant: u16) -> (
    value: u64)
    requires
        caps_wf(old(caps)@),
        domain < MAX_DOMAINS,
        slot < MAX_CAPS,
        old(caps)@[cap_at(domain as int, slot as int)].is_free(),
    ensures
        caps_wf(final(caps)@),
        final(caps)@ == with_cap(old(caps)@, domain as int, slot as int, object, grant),
        value == handle_of(
            slot as u32,
            final(caps)@[cap_at(domain as int, slot as int)].generation,
        ),
        value != 0,
        cap_lookup(final(caps)@, domain as int, value) == Some(
            final(caps)@[cap_at(domain as int, slot as int)],
        ),
{
    let at: usize = domain * MAX_CAPS + slot;
    let generation: u32 = caps[at].generation + 1;
    caps.set(at, CapEntry { live: true, generation, object, grant });
    proof {
        crate::abi::handle_round_trip(slot as u32, generation);
    }
    handle(slot as u32, generation)
}

/// Empties a slot and returns what it held; `None` when it was empty.
pub fn empty_slot(caps: &mut Vec<CapEntry>, domain: usize, slot: usize) -> (entry: Option<CapEntry>)
    requires
        caps_wf(old(caps)@),
        domain < MAX_DOMAINS,
        slot < MAX_CAPS,
    ensures
        caps_wf(final(caps)@),
        ({
            let held = old(caps)@[cap_at(domain as int, slot as int)];
            if held.live {
                &&& entry == Some(held)
                &&& final(caps)@ == without_cap(old(caps)@, domain as int, slot as int)
            } else {
                &&& entry is None
                &&& final(caps)@ == old(caps)@
            }
        }),
{
    let at: usize = domain * MAX_CAPS + slot;
    let held = caps[at];
    if !held.live {
        return None;
    }
    caps.set(at, CapEntry { live: false, ..held });
    Some(held)
}

/// A handle to an emptied slot names nothing, now and after the slot has been
/// filled again.
pub proof fn stale_handles_name_nothing(
    caps: Seq<CapEntry>,
    domain: int,
    slot: int,
    object: ObjRef,
    grant: u16,
)
    requires
        caps_wf(caps),
        0 <= domain < MAX_DOMAINS,
        0 <= slot < MAX_CAPS,
        caps[cap_at(domain, slot)].live,
        caps[cap_at(domain, slot)].generation < u32::MAX,
    ensures
        ({
            let stale = handle_of(slot as u32, caps[cap_at(domain, slot)].generation);
            let emptied = without_cap(caps, domain, slot);
            let refilled = with_cap(emptied, domain, slot, object, grant);
            &&& cap_lookup(caps, domain, stale) is Some
            &&& cap_lookup(emptied, domain, stale) is None
            &&& cap_lookup(refilled, domain, stale) is None
        }),
{
    crate::abi::handle_round_trip(slot as u32, caps[cap_at(domain, slot)].generation);
}

/// Where slots are left, the first of them is one.
pub proof fn some_slot_is_first(caps: Seq<CapEntry>, domain: int, from: int)
    requires
        0 <= from <= MAX_CAPS,
        count_free(caps, domain, from) > 0,
    ensures
        from <= first_free(caps, domain, from) < MAX_CAPS,
        caps[cap_at(domain, first_free(caps, domain, from))].is_free(),
    decreases MAX_CAPS - from,
{
    if !caps[cap_at(domain, from)].is_free() {
        some_slot_is_first(caps, domain, from + 1);
    }
}

/// Filling a slot leaves one fewer at most.
pub proof fn filling_takes_one_slot(
    caps: Seq<CapEntry>,
    domain: int,
    slot: int,
    object: ObjRef,
    grant: u16,
    from: int,
)
    requires
        caps_wf(caps),
        0 <= domain < MAX_DOMAINS,
        0 <= slot < MAX_CAPS,
        0 <= from <= MAX_CAPS,
        caps[cap_at(domain, slot)].is_free(),
    ensures
        count_free(with_cap(caps, domain, slot, object, grant), domain, from) == count_free(
            caps,
            domain,
            from,
        ) - (if from <= slot {
            1int
        } else {
            0
        }),
    decreases MAX_CAPS - from,
{
    if from < MAX_CAPS {
        filling_takes_one_slot(caps, domain, slot, object, grant, from + 1);
    }
}

} // verus!
