//! Endpoints, messages and admitted work.
//!
//! Three facts are kept apart: a message was *admitted*, its capabilities were
//! *installed*, and its result was *delivered*. A caller that stops waiting
//! learns nothing about the first two, and a failed delivery undoes neither.

use vstd::array::spec_array_fill_for_copy_type;
use vstd::prelude::*;

use crate::limits::{MAX_INLINE_PAYLOAD, MAX_MESSAGE_CAPS, MAX_THREADS};
use crate::obj::NO_GRANT;

verus! {

/// A message index that names no message.
pub const NO_MESSAGE: u16 = 0xFFFF;

/// A domain index that names no domain.
pub const NO_DOMAIN: u16 = 0xFFFF;

/// A bounded queue with one owner, an epoch and explicit facets.
#[derive(Clone, Copy, Debug)]
pub struct Endpoint {
    /// Whether the slot is in use.
    pub used: bool,
    /// Whether the endpoint still admits messages.
    pub open: bool,
    /// Generation of this table slot.
    pub generation: u32,
    /// Diagnostic identity.
    pub id: u64,
    /// Session epoch; facets are unique within one epoch.
    pub epoch: u64,
    /// Scope charged for the queue.
    pub owner_scope: u16,
    /// Domain that receives, or [`NO_DOMAIN`].
    pub receiver_domain: u16,
    /// Generation of that domain when it became the receiver.
    pub receiver_generation: u32,
    /// Messages the queue may hold, reserved cells included.
    pub capacity: u32,
    /// Cells reserved for fault reports.
    pub reserved_cells: u32,
    /// Reserved cells currently occupied.
    pub reserved_used: u32,
    /// Messages queued.
    pub queued: u32,
    /// Facets minted from this endpoint.
    pub facets: u32,
    /// Next facet the binder will hand out.
    pub next_facet: u64,
    /// Messages admitted since creation.
    pub admitted: u64,
    /// Messages delivered since creation.
    pub delivered: u64,
    /// Diagnostic label.
    pub label: [u8; 16],
    /// Capability entries naming this endpoint.
    pub refs: u32,
    /// Threads that registered to be woken by a message.
    pub receivers: [bool; MAX_THREADS],
}

/// Number of leading bytes of `label` before the first NUL.
pub open spec fn label_length(label: Seq<u8>) -> int
    decreases label.len(),
{
    if label.len() == 0 || label[0] == 0 {
        0
    } else {
        1 + label_length(label.drop_first())
    }
}

/// The bytes of a NUL-padded label up to its first NUL.
pub fn label_bytes(label: &[u8; 16]) -> (text: Vec<u8>)
    ensures
        text@ == label@.take(label_length(label@)),
{
    let mut text: Vec<u8> = Vec::new();
    let mut i: usize = 0;
    assert(label@.skip(0) =~= label@);
    while i < 16 && label[i] != 0
        invariant
            i <= 16,
            text@ == label@.take(i as int),
            label_length(label@) == i + label_length(label@.skip(i as int)),
        decreases 16 - i,
    {
        text.push(label[i]);
        assert(label@.skip(i as int).drop_first() =~= label@.skip(i + 1));
        i += 1;
        assert(text@ =~= label@.take(i as int));
    }
    text
}

impl Endpoint {
    /// A free slot.
    pub open spec fn empty_spec() -> Endpoint {
        Endpoint {
            used: false,
            open: false,
            generation: 0,
            id: 0,
            epoch: 0,
            owner_scope: 0,
            receiver_domain: NO_DOMAIN,
            receiver_generation: 0,
            capacity: 0,
            reserved_cells: 0,
            reserved_used: 0,
            queued: 0,
            facets: 0,
            next_facet: 1,
            admitted: 0,
            delivered: 0,
            label: spec_array_fill_for_copy_type::<u8, 16>(0),
            refs: 0,
            receivers: spec_array_fill_for_copy_type::<bool, MAX_THREADS>(false),
        }
    }

    /// A free slot.
    pub fn empty() -> (endpoint: Endpoint)
        ensures
            endpoint == Endpoint::empty_spec(),
    {
        Endpoint {
            used: false,
            open: false,
            generation: 0,
            id: 0,
            epoch: 0,
            owner_scope: 0,
            receiver_domain: NO_DOMAIN,
            receiver_generation: 0,
            capacity: 0,
            reserved_cells: 0,
            reserved_used: 0,
            queued: 0,
            facets: 0,
            next_facet: 1,
            admitted: 0,
            delivered: 0,
            label: [0u8; 16],
            refs: 0,
            receivers: [false; MAX_THREADS],
        }
    }

    /// Label up to its first NUL, for diagnostic records.
    pub fn label_str(&self) -> (text: Vec<u8>)
        ensures
            text@ == self.label@.take(label_length(self.label@)),
    {
        label_bytes(&self.label)
    }

    /// Cells ordinary traffic may occupy.
    pub open spec fn ordinary_cells(self) -> int {
        if self.capacity >= self.reserved_cells {
            self.capacity - self.reserved_cells
        } else {
            0
        }
    }

    /// Ordinary messages that are queued.
    pub open spec fn ordinary_queued(self) -> int {
        if self.queued >= self.reserved_used {
            self.queued - self.reserved_used
        } else {
            0
        }
    }

    /// Cells ordinary traffic may occupy.
    pub fn ordinary_capacity(&self) -> (cells: u32)
        ensures
            cells == self.ordinary_cells(),
    {
        if self.capacity >= self.reserved_cells {
            self.capacity - self.reserved_cells
        } else {
            0
        }
    }

    /// Whether ordinary traffic can still be admitted.
    pub fn has_ordinary_room(&self) -> (yes: bool)
        ensures
            yes == (self.ordinary_queued() < self.ordinary_cells()),
    {
        let ordinary: u32 = if self.queued >= self.reserved_used {
            self.queued - self.reserved_used
        } else {
            0
        };
        ordinary < self.ordinary_capacity()
    }
}

/// A capability staged for delivery, already installed in the receiver.
#[derive(Clone, Copy, Debug, PartialEq, Eq, Structural)]
pub struct DeliveredCap {
    /// Slot the entry was installed in.
    pub slot: u16,
    /// Handle the receiver will be told.
    pub handle: u64,
    /// Grant the entry refers to.
    pub grant: u16,
}

impl DeliveredCap {
    /// Nothing staged.
    pub open spec fn empty_spec() -> DeliveredCap {
        DeliveredCap { slot: 0xFFFF, handle: 0, grant: NO_GRANT }
    }

    /// Nothing staged.
    pub fn empty() -> (cap: DeliveredCap)
        ensures
            cap == DeliveredCap::empty_spec(),
    {
        DeliveredCap { slot: 0xFFFF, handle: 0, grant: NO_GRANT }
    }
}

/// One admitted message.
#[derive(Clone, Copy, Debug)]
pub struct Message {
    /// Whether the slot is in use.
    pub used: bool,
    /// Endpoint the message was admitted to.
    pub endpoint: u16,
    /// Generation of that endpoint at admission.
    pub endpoint_generation: u32,
    /// Invocation the message belongs to.
    pub invocation: u16,
    /// Whether the message occupies a reserved cell.
    pub reserved_cell: bool,
    /// Message kind: an ordinary request or a fault report.
    pub kind: u32,
    /// Payload bytes, copied once at admission.
    pub payload: [u8; MAX_INLINE_PAYLOAD],
    /// Significant payload bytes.
    pub payload_len: u32,
    /// Capabilities already installed in the receiver.
    pub caps: [DeliveredCap; MAX_MESSAGE_CAPS],
    /// Number of installed capabilities.
    pub cap_count: u32,
    /// Queue bytes charged for this message.
    pub charged_bytes: u64,
}

impl Message {
    /// A free slot.
    pub open spec fn empty_spec() -> Message {
        Message {
            used: false,
            endpoint: 0,
            endpoint_generation: 0,
            invocation: 0,
            reserved_cell: false,
            kind: 0,
            payload: spec_array_fill_for_copy_type::<u8, MAX_INLINE_PAYLOAD>(0),
            payload_len: 0,
            caps: spec_array_fill_for_copy_type::<DeliveredCap, MAX_MESSAGE_CAPS>(
                DeliveredCap::empty_spec(),
            ),
            cap_count: 0,
            charged_bytes: 0,
        }
    }

    /// A free slot.
    pub fn empty() -> (message: Message)
        ensures
            message == Message::empty_spec(),
    {
        let blank = DeliveredCap::empty();
        Message {
            used: false,
            endpoint: 0,
            endpoint_generation: 0,
            invocation: 0,
            reserved_cell: false,
            kind: 0,
            payload: [0u8; MAX_INLINE_PAYLOAD],
            payload_len: 0,
            caps: [blank; MAX_MESSAGE_CAPS],
            cap_count: 0,
            charged_bytes: 0,
        }
    }
}

/// Lifecycle of admitted work.
#[derive(Clone, Copy, PartialEq, Eq, Debug, Structural)]
pub enum State {
    /// Free table slot.
    Empty,
    /// Admitted and queued; no receiver holds it yet.
    Admitted,
    /// A receiver holds it as an obligation.
    Delivered,
    /// Discharged: replied, resolved or withdrawn.
    Resolved,
}

impl State {
    /// The number [`State::abi`] returns.
    pub open spec fn abi_spec(self) -> u32 {
        match self {
            State::Empty => 0,
            State::Admitted => 1,
            State::Delivered => 2,
            State::Resolved => 3,
        }
    }

    /// The name [`State::name`] returns.
    pub open spec fn name_spec(self) -> Seq<char> {
        match self {
            State::Empty => "empty"@,
            State::Admitted => "admitted"@,
            State::Delivered => "delivered"@,
            State::Resolved => "resolved"@,
        }
    }

    /// Number reported in an invocation descriptor.
    pub fn abi(self) -> (number: u32)
        ensures
            number == self.abi_spec(),
    {
        match self {
            State::Empty => 0,
            State::Admitted => 1,
            State::Delivered => 2,
            State::Resolved => 3,
        }
    }

    /// Short name used in diagnostic records.
    pub fn name(self) -> (text: &'static str)
        ensures
            text@ == self.name_spec(),
    {
        match self {
            State::Empty => "empty",
            State::Admitted => "admitted",
            State::Delivered => "delivered",
            State::Resolved => "resolved",
        }
    }
}

/// Whether an effect has been admitted against the original lineage.
#[derive(Clone, Copy, PartialEq, Eq, Debug, Structural)]
pub enum Effect {
    /// No effect was ever requested.
    Unasked,
    /// One effect was admitted and is not yet resolved.
    Admitted,
    /// An effect was requested after the barrier and refused.
    Refused,
    /// The admitted effect was resolved.
    Resolved,
}

impl Effect {
    /// The number [`Effect::abi`] returns.
    pub open spec fn abi_spec(self) -> u32 {
        match self {
            Effect::Unasked => 0,
            Effect::Admitted => 1,
            Effect::Refused => 2,
            Effect::Resolved => 3,
        }
    }

    /// The name [`Effect::name`] returns.
    pub open spec fn name_spec(self) -> Seq<char> {
        match self {
            Effect::Unasked => "none"@,
            Effect::Admitted => "admitted"@,
            Effect::Refused => "refused"@,
            Effect::Resolved => "resolved"@,
        }
    }

    /// Number reported in an invocation descriptor.
    pub fn abi(self) -> (number: u32)
        ensures
            number == self.abi_spec(),
    {
        match self {
            Effect::Unasked => 0,
            Effect::Admitted => 1,
            Effect::Refused => 2,
            Effect::Resolved => 3,
        }
    }

    /// Short name used in diagnostic records.
    pub fn name(self) -> (text: &'static str)
        ensures
            text@ == self.name_spec(),
    {
        match self {
            Effect::Unasked => "none",
            Effect::Admitted => "admitted",
            Effect::Refused => "refused",
            Effect::Resolved => "resolved",
        }
    }
}

/// Whether the authority that admitted the work is still live.
#[derive(Clone, Copy, PartialEq, Eq, Debug, Structural)]
pub enum Cancel {
    /// The origin is still open.
    Live,
    /// The origin's scope or grant was fenced after admission.
    OriginFenced,
    /// The originating domain is gone.
    OriginDead,
}

impl Cancel {
    /// The number [`Cancel::abi`] returns.
    pub open spec fn abi_spec(self) -> u32 {
        match self {
            Cancel::Live => 0,
            Cancel::OriginFenced => 1,
            Cancel::OriginDead => 2,
        }
    }

    /// The name [`Cancel::name`] returns.
    pub open spec fn name_spec(self) -> Seq<char> {
        match self {
            Cancel::Live => "live"@,
            Cancel::OriginFenced => "origin_fenced"@,
            Cancel::OriginDead => "origin_dead"@,
        }
    }

    /// Number reported in a message header.
    pub fn abi(self) -> (number: u32)
        ensures
            number == self.abi_spec(),
    {
        match self {
            Cancel::Live => 0,
            Cancel::OriginFenced => 1,
            Cancel::OriginDead => 2,
        }
    }

    /// Short name used in diagnostic records.
    pub fn name(self) -> (text: &'static str)
        ensures
            text@ == self.name_spec(),
    {
        match self {
            Cancel::Live => "live",
            Cancel::OriginFenced => "origin_fenced",
            Cancel::OriginDead => "origin_dead",
        }
    }
}

/// Admitted work: who it came from, under what authority, and what it still
/// owes. The origin fields are stamped at admission and are not writable from
/// any payload.
#[derive(Clone, Copy, Debug)]
pub struct Invocation {
    /// Lifecycle state.
    pub state: State,
    /// Generation of this table slot.
    pub generation: u32,
    /// Diagnostic identity.
    pub id: u64,
    /// Endpoint the work was admitted to.
    pub endpoint: u16,
    /// Generation of that endpoint at admission.
    pub endpoint_generation: u32,
    /// Endpoint epoch at admission.
    pub epoch: u64,
    /// Domain that sent it.
    pub origin_domain: u16,
    /// Generation of that domain at admission.
    pub origin_domain_generation: u32,
    /// Diagnostic identity of that domain.
    pub origin_domain_id: u64,
    /// Scope the work is charged to.
    pub origin_scope: u16,
    /// Diagnostic identity of that scope.
    pub origin_scope_id: u64,
    /// Thread blocked on the reply, if the call was synchronous.
    pub waiter: Option<u16>,
    /// Invocation the sender was serving when it sent this, or zero.
    pub parent_id: u64,
    /// Grant admission validated. Effect admission revalidates this same node.
    pub grant: u16,
    /// Facet the send capability carried.
    pub facet: u64,
    /// Whether the authority behind the work is still live.
    pub cancel: Cancel,
    /// Effect admission state.
    pub effect: Effect,
    /// Scope whose closing capacity was reserved.
    pub closure_service: u16,
    /// Recovery time reserved when the effect was admitted.
    pub closure_reserved_ns: u64,
    /// Monotonic time of admission.
    pub admitted_ns: u64,
    /// Message holding the payload while it is queued, or [`NO_MESSAGE`].
    pub message: u16,
    /// Domain that received it, once one has.
    pub receiver_domain: u16,
    /// Queue bytes charged to the origin scope.
    pub charged_bytes: u64,
    /// Capability entries and bound workers naming this invocation.
    pub refs: u32,
    /// Whether the reply has already been consumed.
    pub replied: bool,
    /// Result the server reported when resolving.
    pub outcome: u32,
    /// Reply payload, held until the waiter reads it.
    pub reply_payload: [u8; MAX_INLINE_PAYLOAD],
    /// Significant reply bytes.
    pub reply_len: u32,
    /// Handles the reply installed in the caller.
    pub reply_caps: [u64; MAX_MESSAGE_CAPS],
    /// Number of those handles.
    pub reply_cap_count: u32,
    /// Value the server returned alongside the reply.
    pub reply_result: u64,
}

impl Invocation {
    /// A free slot.
    pub open spec fn empty_spec() -> Invocation {
        Invocation {
            state: State::Empty,
            generation: 0,
            id: 0,
            endpoint: 0,
            endpoint_generation: 0,
            epoch: 0,
            origin_domain: 0,
            origin_domain_generation: 0,
            origin_domain_id: 0,
            origin_scope: 0,
            origin_scope_id: 0,
            waiter: None,
            parent_id: 0,
            grant: NO_GRANT,
            facet: 0,
            cancel: Cancel::Live,
            effect: Effect::Unasked,
            closure_service: 0,
            closure_reserved_ns: 0,
            admitted_ns: 0,
            message: NO_MESSAGE,
            receiver_domain: NO_DOMAIN,
            charged_bytes: 0,
            refs: 0,
            replied: false,
            outcome: 0,
            reply_payload: spec_array_fill_for_copy_type::<u8, MAX_INLINE_PAYLOAD>(0),
            reply_len: 0,
            reply_caps: spec_array_fill_for_copy_type::<u64, MAX_MESSAGE_CAPS>(0),
            reply_cap_count: 0,
            reply_result: 0,
        }
    }

    /// A free slot.
    pub fn empty() -> (invocation: Invocation)
        ensures
            invocation == Invocation::empty_spec(),
    {
        Invocation {
            state: State::Empty,
            generation: 0,
            id: 0,
            endpoint: 0,
            endpoint_generation: 0,
            epoch: 0,
            origin_domain: 0,
            origin_domain_generation: 0,
            origin_domain_id: 0,
            origin_scope: 0,
            origin_scope_id: 0,
            waiter: None,
            parent_id: 0,
            grant: NO_GRANT,
            facet: 0,
            cancel: Cancel::Live,
            effect: Effect::Unasked,
            closure_service: 0,
            closure_reserved_ns: 0,
            admitted_ns: 0,
            message: NO_MESSAGE,
            receiver_domain: NO_DOMAIN,
            charged_bytes: 0,
            refs: 0,
            replied: false,
            outcome: 0,
            reply_payload: [0u8; MAX_INLINE_PAYLOAD],
            reply_len: 0,
            reply_caps: [0u64; MAX_MESSAGE_CAPS],
            reply_cap_count: 0,
            reply_result: 0,
        }
    }
}

} // verus!
