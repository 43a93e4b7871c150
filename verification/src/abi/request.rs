//! What operations are passed and what they answer.

use vstd::prelude::*;

use crate::limits::{MAX_DEVICE_REGIONS, MAX_INLINE_PAYLOAD, MAX_MESSAGE_CAPS};

verus! {

/// A message to admit.
#[derive(Clone, Copy, Debug)]
pub struct SendRequest {
    /// Significant bytes of the payload.
    pub payload_len: u32,
    /// Capabilities that go along.
    pub cap_count: u32,
    /// Handles of those capabilities; zero behind the last.
    pub caps: [u64; MAX_MESSAGE_CAPS],
    /// What happens to each; zero behind the last.
    pub cap_ops: [u32; MAX_MESSAGE_CAPS],
    /// Payload.
    pub payload: [u8; MAX_INLINE_PAYLOAD],
}

/// A reply to an invocation.
#[derive(Clone, Copy, Debug)]
pub struct ReplyRequest {
    /// Significant bytes of the payload.
    pub payload_len: u32,
    /// Capabilities that go along.
    pub cap_count: u32,
    /// Handles of those capabilities.
    pub caps: [u64; MAX_MESSAGE_CAPS],
    /// What happens to each.
    pub cap_ops: [u32; MAX_MESSAGE_CAPS],
    /// Result word.
    pub result: u64,
    /// Payload.
    pub payload: [u8; MAX_INLINE_PAYLOAD],
}

/// An endpoint to create.
#[derive(Clone, Copy, Debug)]
pub struct EndpointCreateRequest {
    /// Messages it may queue.
    pub queue_capacity: u32,
    /// Zero.
    pub reserved0: u32,
    /// Diagnostic label.
    pub label: [u8; 16],
}

/// A send capability to bind to one logical object of a service.
#[derive(Clone, Copy, Debug, PartialEq, Eq, Structural)]
pub struct BindFacetRequest {
    /// Rights of the capability.
    pub rights_mask: u32,
    /// Zero.
    pub reserved0: u32,
    /// Zero: the kernel assigns the facet.
    pub facet: u64,
    /// When the capability expires; zero for the deadline of the parent.
    pub deadline_ns: u64,
}

/// What the kernel states about a message.
#[derive(Clone, Copy, Debug, PartialEq, Eq, Structural)]
pub struct MessageHeader {
    /// Epoch of the endpoint.
    pub epoch: u64,
    /// Identity of the invocation.
    pub invocation_id: u64,
    /// Identity of the sending domain.
    pub sender_domain_id: u64,
    /// Identity of the scope that pays.
    pub sender_scope_id: u64,
    /// Identity of the invocation the sender worked for.
    pub parent_invocation_id: u64,
    /// Facet of the capability the message came through.
    pub facet: u64,
    /// Identity of the grant the message came through.
    pub grant_id: u64,
    /// When it was admitted.
    pub sent_ns: u64,
    /// Rights that came along.
    pub rights_transferred: u32,
    /// Whether the origin still wants it.
    pub cancel_state: u32,
    /// Kind of message.
    pub kind: u32,
    /// Significant bytes of the payload.
    pub payload_len: u32,
}

/// A message as its receiver sees it.
#[derive(Clone, Copy, Debug)]
pub struct ReceiveResult {
    /// What the kernel states about it.
    pub header: MessageHeader,
    /// Capabilities that came along.
    pub cap_count: u32,
    /// Handles of those capabilities.
    pub caps: [u64; MAX_MESSAGE_CAPS],
    /// Payload.
    pub payload: [u8; MAX_INLINE_PAYLOAD],
}

/// A reply as the caller sees it.
#[derive(Clone, Copy, Debug)]
pub struct CallResult {
    /// Significant bytes of the payload.
    pub payload_len: u32,
    /// Capabilities that came along.
    pub cap_count: u32,
    /// Handles of those capabilities.
    pub caps: [u64; MAX_MESSAGE_CAPS],
    /// Result word.
    pub result: u64,
    /// Identity of the invocation.
    pub invocation_id: u64,
    /// Payload.
    pub payload: [u8; MAX_INLINE_PAYLOAD],
}

/// An effect to begin.
#[derive(Clone, Copy, Debug, PartialEq, Eq, Structural)]
pub struct EffectRequest {
    /// Kind of effect, for the receipt.
    pub effect_kind: u32,
    /// Zero.
    pub reserved0: u32,
    /// Closing time to hold back for it.
    pub closure_reserve_ns: u64,
}

/// An obligation to discharge.
#[derive(Clone, Copy, Debug, PartialEq, Eq, Structural)]
pub struct ResolveRequest {
    /// How the work ended.
    pub outcome: u32,
    /// Zero.
    pub reserved0: u32,
    /// Detail for the record.
    pub detail: u64,
}

/// State of an invocation.
#[derive(Clone, Copy, Debug, PartialEq, Eq, Structural)]
pub struct InvocationInfo {
    /// Lifecycle state.
    pub state: u32,
    /// Whether the origin still wants it.
    pub cancel_state: u32,
    /// Whether an effect was begun.
    pub effect_state: u32,
    /// Identity.
    pub invocation_id: u64,
    /// Identity of the sending domain.
    pub origin_domain_id: u64,
    /// Identity of the scope that pays.
    pub origin_scope_id: u64,
    /// Facet it came through.
    pub facet: u64,
    /// Identity of the grant it came through, or zero.
    pub grant_id: u64,
    /// When it was admitted.
    pub admitted_ns: u64,
}

/// State of an endpoint.
#[derive(Clone, Copy, Debug, PartialEq, Eq, Structural)]
pub struct EndpointInfo {
    /// Messages it may queue.
    pub queue_capacity: u32,
    /// Messages it queues.
    pub queued: u32,
    /// Cells reserved for reports.
    pub reserved_cells: u32,
    /// Facets bound.
    pub facets: u32,
    /// Epoch.
    pub epoch: u64,
    /// Identity.
    pub object_id: u64,
    /// Messages admitted so far.
    pub admitted: u64,
    /// Messages delivered so far.
    pub delivered: u64,
}

/// What a capability names and what its lineage permits.
#[derive(Clone, Copy, Debug, PartialEq, Eq, Structural)]
pub struct CapInfo {
    /// Type of the object.
    pub object_type: u32,
    /// Rights.
    pub rights: u32,
    /// Distance from the root of its lineage.
    pub derive_depth: u32,
    /// What the lineage permits.
    pub lineage_state: u32,
    /// Identity of the grant.
    pub grant_id: u64,
    /// Identity of the grant it was derived from, or zero.
    pub parent_grant_id: u64,
    /// When it expires, or zero.
    pub deadline_ns: u64,
    /// Identity of the scope its life is bound to, or zero.
    pub life_scope_id: u64,
    /// Identity of the object, or zero when it is gone.
    pub object_id: u64,
    /// Facet.
    pub facet: u64,
}

/// A capability to derive.
#[derive(Clone, Copy, Debug, PartialEq, Eq, Structural)]
pub struct DeriveRequest {
    /// Rights to keep.
    pub rights_mask: u32,
    /// Zero.
    pub reserved0: u32,
    /// When it expires; zero for the deadline of the parent.
    pub deadline_ns: u64,
    /// Handle of the scope its life is bound to; zero for that of the parent.
    pub life_scope: u64,
}

/// What a perimeter or a lineage still holds.
#[derive(Clone, Copy, Debug, PartialEq, Eq, Structural)]
pub struct DrainReport {
    /// Lifecycle state.
    pub state: u32,
    /// Threads.
    pub threads_running: u32,
    /// Invocations admitted and not resolved.
    pub invocations_pending: u32,
    /// Effects admitted and not resolved.
    pub effects_pending: u32,
    /// Mappings that have not been withdrawn.
    pub maps_pending: u32,
    /// Messages withdrawn before anyone received them.
    pub undelivered_cancelled: u32,
    /// Pages charged.
    pub retained_pages: u64,
    /// Kernel records charged.
    pub retained_metadata: u64,
    /// When an obligation was last discharged.
    pub last_progress_ns: u64,
    /// Identity of the drain.
    pub token: u64,
}

/// Ceilings of a scope.
#[derive(Clone, Copy, Debug, PartialEq, Eq, Structural)]
pub struct ScopeLimits {
    /// Pages.
    pub memory_pages: u64,
    /// Kernel records.
    pub metadata_objects: u64,
    /// Processor time per window.
    pub cpu_budget_ns: u64,
    /// Bytes of queued messages.
    pub queue_bytes: u64,
    /// Closing time.
    pub closure_reserve_ns: u64,
    /// Threads that run at once.
    pub parallelism: u32,
    /// Zero.
    pub reserved0: u32,
}

/// A scope to create.
#[derive(Clone, Copy, Debug)]
pub struct ScopeCreateRequest {
    /// Its ceilings.
    pub limits: ScopeLimits,
    /// Diagnostic label.
    pub label: [u8; 16],
}

/// State of a scope.
#[derive(Clone, Copy, Debug, PartialEq, Eq, Structural)]
pub struct ScopeInfo {
    /// Ceilings.
    pub limits: ScopeLimits,
    /// Lifecycle state.
    pub state: u32,
    /// Distance from the root.
    pub depth: u32,
    /// Threads that run now.
    pub parallelism_used: u32,
    /// Threads.
    pub threads: u32,
    /// Identity.
    pub scope_id: u64,
    /// Identity of the scope above, or zero.
    pub parent_scope_id: u64,
    /// Pages charged.
    pub memory_pages_used: u64,
    /// Kernel records charged.
    pub metadata_used: u64,
    /// Bytes of queued messages charged.
    pub queue_bytes_used: u64,
    /// Processor time of the current window.
    pub cpu_window_used_ns: u64,
    /// Processor time of all windows.
    pub cpu_total_ns: u64,
    /// Processor time owed.
    pub cpu_debt_ns: u64,
    /// Closing time spent.
    pub closure_used_ns: u64,
    /// Number of the current window.
    pub window_index: u64,
}

/// State of a signal.
#[derive(Clone, Copy, Debug, PartialEq, Eq, Structural)]
pub struct SignalInfo {
    /// Bits raised, or consumed.
    pub bits: u64,
    /// Raises so far.
    pub sequence: u64,
    /// Identity.
    pub object_id: u64,
    /// Threads that wait for it.
    pub waiters: u32,
}

/// A timer to create.
#[derive(Clone, Copy, Debug, PartialEq, Eq, Structural)]
pub struct TimerCreateRequest {
    /// Handle of the signal it raises.
    pub signal_handle: u64,
    /// Bits it raises.
    pub bits: u64,
}

/// State of a timer.
#[derive(Clone, Copy, Debug, PartialEq, Eq, Structural)]
pub struct TimerInfo {
    /// One when armed.
    pub armed: u32,
    /// When it expires.
    pub deadline_ns: u64,
    /// Expiries so far.
    pub fired: u64,
    /// Identity.
    pub object_id: u64,
}

/// A note to append to the control log.
#[derive(Clone, Copy, Debug, PartialEq, Eq, Structural)]
pub struct LogAppendRequest {
    /// Kind of note.
    pub kind: u32,
    /// Zero.
    pub reserved0: u32,
    /// Origin the caller claims; the kernel states its own.
    pub claimed_origin_domain_id: u64,
    /// First detail.
    pub a: u64,
    /// Second detail.
    pub b: u64,
}

/// State of a control log.
#[derive(Clone, Copy, Debug, PartialEq, Eq, Structural)]
pub struct LogInfo {
    /// Cells.
    pub capacity: u32,
    /// Cells ordinary traffic can never occupy.
    pub reserved_cells: u32,
    /// Cells in use.
    pub used: u32,
    /// Receipts lost.
    pub lost: u32,
    /// Sequence of the next receipt.
    pub next_sequence: u64,
    /// Sequence of the oldest receipt.
    pub oldest_sequence: u64,
    /// Identity.
    pub object_id: u64,
}

/// A memory object to create.
#[derive(Clone, Copy, Debug)]
pub struct MemoryCreateRequest {
    /// Pages.
    pub pages: u64,
    /// Ceiling on what may ever be done to the pages.
    pub max_rights: u32,
    /// Zero.
    pub reserved0: u32,
    /// Diagnostic label.
    pub label: [u8; 16],
}

/// State of a memory object.
#[derive(Clone, Copy, Debug)]
pub struct MemoryInfo {
    /// Lifecycle state.
    pub state: u32,
    /// Ceiling on what may ever be done to the pages.
    pub max_rights: u32,
    /// Mappings.
    pub map_count: u32,
    /// Writable mappings.
    pub writable_maps: u32,
    /// Pages.
    pub pages: u64,
    /// Identity.
    pub object_id: u64,
    /// Identity of the scope that pays.
    pub sponsor_scope_id: u64,
    /// Diagnostic label.
    pub label: [u8; 16],
}

/// A range to copy between memory objects.
#[derive(Clone, Copy, Debug, PartialEq, Eq, Structural)]
pub struct MemoryCopyRequest {
    /// Handle of the object to read.
    pub source_handle: u64,
    /// Where the range starts there.
    pub source_offset: u64,
    /// Where it goes.
    pub dest_offset: u64,
    /// Bytes.
    pub length: u64,
}

/// Bytes to write to a memory object, or a range to read from it.
#[derive(Clone, Copy, Debug)]
pub struct MemoryBytes {
    /// Where the range starts.
    pub offset: u64,
    /// Bytes.
    pub length: u64,
    /// The bytes.
    pub bytes: [u8; MAX_INLINE_PAYLOAD],
}

/// A domain to create.
#[derive(Clone, Copy, Debug)]
pub struct DomainCreateRequest {
    /// Handle of the memory object that holds its image.
    pub image_handle: u64,
    /// Diagnostic name.
    pub name: [u8; 16],
}

/// A mapping to make.
#[derive(Clone, Copy, Debug, PartialEq, Eq, Structural)]
pub struct MapRequest {
    /// Handle of the memory object.
    pub memory_handle: u64,
    /// Where it goes.
    pub vaddr: u64,
    /// First page of the object.
    pub offset_pages: u32,
    /// Pages.
    pub page_count: u32,
    /// Memory rights of the mapping.
    pub rights: u32,
    /// Zero.
    pub reserved0: u32,
}

/// A mapping to withdraw.
#[derive(Clone, Copy, Debug, PartialEq, Eq, Structural)]
pub struct UnmapRequest {
    /// Where it is.
    pub vaddr: u64,
    /// Pages.
    pub page_count: u32,
    /// Zero.
    pub reserved0: u32,
}

/// A capability to install in a domain under construction.
#[derive(Clone, Copy, Debug, PartialEq, Eq, Structural)]
pub struct InstallCapRequest {
    /// Handle of the capability to give.
    pub source_handle: u64,
    /// Slot it goes to.
    pub target_slot: u32,
    /// Rights to keep; zero, with no deadline, for a copy.
    pub rights_mask: u32,
    /// When it expires; zero for the deadline of the source.
    pub deadline_ns: u64,
}

/// A thread to create.
#[derive(Clone, Copy, Debug, PartialEq, Eq, Structural)]
pub struct ThreadCreateRequest {
    /// Entry point.
    pub entry: u64,
    /// Top of its stack.
    pub stack_top: u64,
    /// Argument of the entry point.
    pub argument: u64,
    /// Zero.
    pub reserved0: u64,
}

/// A channel to report faults on.
#[derive(Clone, Copy, Debug, PartialEq, Eq, Structural)]
pub struct FaultChannelRequest {
    /// Handle of the endpoint.
    pub endpoint_handle: u64,
    /// Zero.
    pub reserved0: u64,
}

/// State of a domain.
#[derive(Clone, Copy, Debug, PartialEq, Eq, Structural)]
pub struct DomainInfo {
    /// Lifecycle state.
    pub state: u32,
    /// Threads.
    pub threads: u32,
    /// Faults so far.
    pub faults: u32,
    /// Processors it was dispatched on, one bit each.
    pub space_cpu_mask: u32,
    /// Identity.
    pub domain_id: u64,
    /// Identity of the scope that pays.
    pub owner_scope_id: u64,
    /// What it said when it ended.
    pub exit_code: u64,
    /// Vector of its last fault, or zero.
    pub fault_vector: u64,
    /// Instruction of its last fault, or zero.
    pub fault_rip: u64,
    /// Frames charged to it.
    pub charged_pages: u64,
    /// Entry point.
    pub entry_point: u64,
}

/// A register window of a device.
#[derive(Clone, Copy, Debug, PartialEq, Eq, Structural)]
pub struct DeviceRegion {
    /// Structure kind.
    pub kind: u32,
    /// Base address register it lives in.
    pub bar: u32,
    /// Offset in that register's window.
    pub offset: u64,
    /// Length.
    pub length: u64,
    /// One when it is mapped somewhere.
    pub flags: u32,
    /// Notify offset multiplier.
    pub notify_off_multiplier: u32,
}

/// State of a device.
#[derive(Clone, Copy, Debug)]
pub struct DeviceInfo {
    /// Lifecycle state.
    pub state: u32,
    /// Session.
    pub session: u32,
    /// Segment, bus, device and function.
    pub bdf: u32,
    /// Vendor identifier.
    pub vendor_id: u32,
    /// Device identifier.
    pub device_id: u32,
    /// Class, subclass and programming interface.
    pub class_code: u32,
    /// Register windows.
    pub region_count: u32,
    /// Interrupts bound.
    pub irq_bound: u32,
    /// DMA grants.
    pub dma_grants: u32,
    /// Isolation profile it can sustain.
    pub dma_profile: u32,
    /// One when a remapping unit is described.
    pub iommu_described: u32,
    /// One when a remapping unit is programmed.
    pub iommu_translating: u32,
    /// One when it offers platform-mediated access.
    pub access_platform: u32,
    /// One when bus mastering is enabled.
    pub bus_master: u32,
    /// Address width the kernel hands it.
    pub dma_address_bits: u32,
    /// Isolation group.
    pub isolation_group: u32,
    /// Functions in that group.
    pub group_members: u32,
    /// Identity.
    pub object_id: u64,
    /// Identity of the scope that pays.
    pub sponsor_scope_id: u64,
    /// Diagnostic label.
    pub label: [u8; 16],
    /// Register windows.
    pub regions: [DeviceRegion; MAX_DEVICE_REGIONS],
}

/// A register window to map or unmap.
#[derive(Clone, Copy, Debug, PartialEq, Eq, Structural)]
pub struct DeviceMapRequest {
    /// Session the caller believes in.
    pub session: u32,
    /// Window.
    pub region_index: u32,
    /// Handle of the domain.
    pub domain_handle: u64,
    /// Where it goes.
    pub vaddr: u64,
}

/// An interrupt to route.
#[derive(Clone, Copy, Debug, PartialEq, Eq, Structural)]
pub struct DeviceIrqRequest {
    /// Session the caller believes in.
    pub session: u32,
    /// Entry of the interrupt table.
    pub vector_index: u32,
    /// Handle of the signal.
    pub signal_handle: u64,
    /// Bits it raises.
    pub bits: u64,
}

/// Pages to let a device reach.
#[derive(Clone, Copy, Debug, PartialEq, Eq, Structural)]
pub struct DmaMapRequest {
    /// Session the caller believes in.
    pub session: u32,
    /// Zero.
    pub reserved0: u32,
    /// Handle of the memory object.
    pub memory_handle: u64,
    /// First page of the object.
    pub offset_pages: u32,
    /// Pages.
    pub page_count: u32,
    /// What the device may do: read, write.
    pub rights: u32,
    /// Isolation profile the caller requires, or zero.
    pub required_profile: u32,
}

/// Pages a device may reach.
#[derive(Clone, Copy, Debug, PartialEq, Eq, Structural)]
pub struct DmaGrantInfo {
    /// Address the device uses.
    pub iova: u64,
    /// Bytes.
    pub length: u64,
    /// What the device may do.
    pub rights: u32,
    /// Isolation profile.
    pub profile: u32,
    /// Session.
    pub session: u32,
    /// Place of the grant.
    pub grant_index: u32,
    /// Identity of the memory object.
    pub memory_object_id: u64,
}

/// A DMA grant to revoke.
#[derive(Clone, Copy, Debug, PartialEq, Eq, Structural)]
pub struct DmaUnmapRequest {
    /// Session the caller believes in.
    pub session: u32,
    /// Zero.
    pub reserved0: u32,
    /// Address the device uses.
    pub iova: u64,
}

} // verus!
