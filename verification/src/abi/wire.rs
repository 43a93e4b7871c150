//! Requests and answers as bytes: the fields of each structure in order, little
//! endian, without gaps.

use vstd::prelude::*;

use crate::abi::request::{
    BindFacetRequest, CallResult, CapInfo, DeriveRequest, DeviceInfo, DeviceIrqRequest,
    DeviceMapRequest, DeviceRegion, DmaGrantInfo, DmaMapRequest, DmaUnmapRequest,
    DomainCreateRequest, DomainInfo, DrainReport, EffectRequest, EndpointCreateRequest,
    EndpointInfo, FaultChannelRequest, InstallCapRequest, InvocationInfo, LogAppendRequest, LogInfo,
    MapRequest, MemoryBytes, MemoryCopyRequest, MemoryCreateRequest, MemoryInfo, MessageHeader,
    ReceiveResult, ReplyRequest, ResolveRequest, ScopeCreateRequest, ScopeInfo, ScopeLimits,
    SendRequest, SignalInfo, ThreadCreateRequest, TimerCreateRequest, TimerInfo, UnmapRequest,
};
use crate::bytes::{
    array_of, array_of_elements, le, le_bytes, le_bytes_len, read_u32, read_u64,
};
use crate::ctrl::ReceiptRecord;
use crate::limits::{MAX_DEVICE_REGIONS, MAX_INLINE_PAYLOAD, MAX_MESSAGE_CAPS};

verus! {

fn word(bytes: &[u8], at: usize) -> (value: u32)
    requires
        at + 4 <= bytes@.len(),
    ensures
        value == le(bytes@, at as int, 4),
{
    match read_u32(bytes, at) {
        Some(value) => value,
        None => 0,
    }
}

/// Reads a number of eight bytes.
pub fn double_word(bytes: &[u8], at: usize) -> (value: u64)
    requires
        at + 8 <= bytes@.len(),
    ensures
        value == le(bytes@, at as int, 8),
{
    match read_u64(bytes, at) {
        Some(value) => value,
        None => 0,
    }
}

/// `N` bytes.
pub open spec fn run_in<const N: usize>(bytes: Seq<u8>, at: int) -> [u8; N] {
    array_of(bytes.subrange(at, at + N))
}

fn label(bytes: &[u8], at: usize) -> (run: [u8; 16])
    requires
        at <= 0x2000,
        at + 16 <= bytes@.len(),
    ensures
        run == run_in::<16>(bytes@, at as int),
{
    let mut run: [u8; 16] = [0; 16];
    for i in 0..16usize
        invariant
            at <= 0x2000,
            at + 16 <= bytes@.len(),
            forall|k: int| 0 <= k < i ==> #[trigger] run@[k] == bytes@[at + k],
    {
        run[i] = bytes[at + i];
    }
    proof {
        assert(run@ =~= bytes@.subrange(at as int, at + 16));
        array_of_elements(run);
    }
    run
}

fn payload(bytes: &[u8], at: usize) -> (run: [u8; MAX_INLINE_PAYLOAD])
    requires
        at <= 0x2000,
        at + MAX_INLINE_PAYLOAD <= bytes@.len(),
    ensures
        run == run_in::<MAX_INLINE_PAYLOAD>(bytes@, at as int),
{
    let mut run: [u8; MAX_INLINE_PAYLOAD] = [0; MAX_INLINE_PAYLOAD];
    for i in 0..MAX_INLINE_PAYLOAD
        invariant
            at <= 0x2000,
            at + MAX_INLINE_PAYLOAD <= bytes@.len(),
            forall|k: int| 0 <= k < i ==> #[trigger] run@[k] == bytes@[at + k],
    {
        run[i] = bytes[at + i];
    }
    proof {
        assert(run@ =~= bytes@.subrange(at as int, at + MAX_INLINE_PAYLOAD));
        array_of_elements(run);
    }
    run
}

/// The handles of a message.
pub open spec fn handles_in(bytes: Seq<u8>, at: int) -> [u64; MAX_MESSAGE_CAPS] {
    array_of(Seq::new(MAX_MESSAGE_CAPS as nat, |i: int| le(bytes, at + 8 * i, 8) as u64))
}

fn handles(bytes: &[u8], at: usize) -> (run: [u64; MAX_MESSAGE_CAPS])
    requires
        at <= 0x2000,
        at + 32 <= bytes@.len(),
    ensures
        run == handles_in(bytes@, at as int),
{
    let mut run: [u64; MAX_MESSAGE_CAPS] = [0; MAX_MESSAGE_CAPS];
    for i in 0..MAX_MESSAGE_CAPS
        invariant
            at <= 0x2000,
            at + 32 <= bytes@.len(),
            forall|k: int| 0 <= k < i ==> #[trigger] run@[k] == le(bytes@, at + 8 * k, 8),
    {
        run[i] = double_word(bytes, at + 8 * i);
    }
    proof {
        assert(run@ =~= Seq::new(
            MAX_MESSAGE_CAPS as nat,
            |i: int| le(bytes@, at + 8 * i, 8) as u64,
        ));
        array_of_elements(run);
    }
    run
}

/// What happens to the handles of a message.
pub open spec fn verbs_in(bytes: Seq<u8>, at: int) -> [u32; MAX_MESSAGE_CAPS] {
    array_of(Seq::new(MAX_MESSAGE_CAPS as nat, |i: int| le(bytes, at + 4 * i, 4) as u32))
}

fn verbs(bytes: &[u8], at: usize) -> (run: [u32; MAX_MESSAGE_CAPS])
    requires
        at <= 0x2000,
        at + 16 <= bytes@.len(),
    ensures
        run == verbs_in(bytes@, at as int),
{
    let mut run: [u32; MAX_MESSAGE_CAPS] = [0; MAX_MESSAGE_CAPS];
    for i in 0..MAX_MESSAGE_CAPS
        invariant
            at <= 0x2000,
            at + 16 <= bytes@.len(),
            forall|k: int| 0 <= k < i ==> #[trigger] run@[k] == le(bytes@, at + 4 * k, 4),
    {
        run[i] = word(bytes, at + 4 * i);
    }
    proof {
        assert(run@ =~= Seq::new(
            MAX_MESSAGE_CAPS as nat,
            |i: int| le(bytes@, at + 4 * i, 4) as u32,
        ));
        array_of_elements(run);
    }
    run
}

/// The `DeriveRequest` at an offset.
pub open spec fn derive_request_in(bytes: Seq<u8>, at: int) -> DeriveRequest {
    DeriveRequest {
        rights_mask: le(bytes, at, 4) as u32,
        reserved0: le(bytes, at + 4, 4) as u32,
        deadline_ns: le(bytes, at + 8, 8) as u64,
        life_scope: le(bytes, at + 16, 8) as u64,
    }
}

/// Reads a `DeriveRequest`.
pub fn read_derive_request(bytes: &[u8], at: usize) -> (value: DeriveRequest)
    requires
        at <= 0x1000,
        at + 24 <= bytes@.len(),
    ensures
        value == derive_request_in(bytes@, at as int),
{
    DeriveRequest {
        rights_mask: word(bytes, at),
        reserved0: word(bytes, at + 4),
        deadline_ns: double_word(bytes, at + 8),
        life_scope: double_word(bytes, at + 16),
    }
}

/// The `ScopeLimits` at an offset.
pub open spec fn scope_limits_in(bytes: Seq<u8>, at: int) -> ScopeLimits {
    ScopeLimits {
        memory_pages: le(bytes, at, 8) as u64,
        metadata_objects: le(bytes, at + 8, 8) as u64,
        cpu_budget_ns: le(bytes, at + 16, 8) as u64,
        queue_bytes: le(bytes, at + 24, 8) as u64,
        closure_reserve_ns: le(bytes, at + 32, 8) as u64,
        parallelism: le(bytes, at + 40, 4) as u32,
        reserved0: le(bytes, at + 44, 4) as u32,
    }
}

/// Reads a `ScopeLimits`.
pub fn read_scope_limits(bytes: &[u8], at: usize) -> (value: ScopeLimits)
    requires
        at <= 0x1000,
        at + 48 <= bytes@.len(),
    ensures
        value == scope_limits_in(bytes@, at as int),
{
    ScopeLimits {
        memory_pages: double_word(bytes, at),
        metadata_objects: double_word(bytes, at + 8),
        cpu_budget_ns: double_word(bytes, at + 16),
        queue_bytes: double_word(bytes, at + 24),
        closure_reserve_ns: double_word(bytes, at + 32),
        parallelism: word(bytes, at + 40),
        reserved0: word(bytes, at + 44),
    }
}

/// The `ScopeCreateRequest` at an offset.
pub open spec fn scope_create_request_in(bytes: Seq<u8>, at: int) -> ScopeCreateRequest {
    ScopeCreateRequest {
        limits: scope_limits_in(bytes, at),
        label: run_in::<16>(bytes, at + 48),
    }
}

/// Reads a `ScopeCreateRequest`.
pub fn read_scope_create_request(bytes: &[u8], at: usize) -> (value: ScopeCreateRequest)
    requires
        at <= 0x1000,
        at + 64 <= bytes@.len(),
    ensures
        value == scope_create_request_in(bytes@, at as int),
{
    ScopeCreateRequest {
        limits: read_scope_limits(bytes, at),
        label: label(bytes, at + 48),
    }
}

/// The `MemoryCreateRequest` at an offset.
pub open spec fn memory_create_request_in(bytes: Seq<u8>, at: int) -> MemoryCreateRequest {
    MemoryCreateRequest {
        pages: le(bytes, at, 8) as u64,
        max_rights: le(bytes, at + 8, 4) as u32,
        reserved0: le(bytes, at + 12, 4) as u32,
        label: run_in::<16>(bytes, at + 16),
    }
}

/// Reads a `MemoryCreateRequest`.
pub fn read_memory_create_request(bytes: &[u8], at: usize) -> (value: MemoryCreateRequest)
    requires
        at <= 0x1000,
        at + 32 <= bytes@.len(),
    ensures
        value == memory_create_request_in(bytes@, at as int),
{
    MemoryCreateRequest {
        pages: double_word(bytes, at),
        max_rights: word(bytes, at + 8),
        reserved0: word(bytes, at + 12),
        label: label(bytes, at + 16),
    }
}

/// The `EndpointCreateRequest` at an offset.
pub open spec fn endpoint_create_request_in(bytes: Seq<u8>, at: int) -> EndpointCreateRequest {
    EndpointCreateRequest {
        queue_capacity: le(bytes, at, 4) as u32,
        reserved0: le(bytes, at + 4, 4) as u32,
        label: run_in::<16>(bytes, at + 8),
    }
}

/// Reads a `EndpointCreateRequest`.
pub fn read_endpoint_create_request(bytes: &[u8], at: usize) -> (value: EndpointCreateRequest)
    requires
        at <= 0x1000,
        at + 24 <= bytes@.len(),
    ensures
        value == endpoint_create_request_in(bytes@, at as int),
{
    EndpointCreateRequest {
        queue_capacity: word(bytes, at),
        reserved0: word(bytes, at + 4),
        label: label(bytes, at + 8),
    }
}

/// The `TimerCreateRequest` at an offset.
pub open spec fn timer_create_request_in(bytes: Seq<u8>, at: int) -> TimerCreateRequest {
    TimerCreateRequest {
        signal_handle: le(bytes, at, 8) as u64,
        bits: le(bytes, at + 8, 8) as u64,
    }
}

/// Reads a `TimerCreateRequest`.
pub fn read_timer_create_request(bytes: &[u8], at: usize) -> (value: TimerCreateRequest)
    requires
        at <= 0x1000,
        at + 16 <= bytes@.len(),
    ensures
        value == timer_create_request_in(bytes@, at as int),
{
    TimerCreateRequest {
        signal_handle: double_word(bytes, at),
        bits: double_word(bytes, at + 8),
    }
}

/// The `DomainCreateRequest` at an offset.
pub open spec fn domain_create_request_in(bytes: Seq<u8>, at: int) -> DomainCreateRequest {
    DomainCreateRequest {
        image_handle: le(bytes, at, 8) as u64,
        name: run_in::<16>(bytes, at + 8),
    }
}

/// Reads a `DomainCreateRequest`.
pub fn read_domain_create_request(bytes: &[u8], at: usize) -> (value: DomainCreateRequest)
    requires
        at <= 0x1000,
        at + 24 <= bytes@.len(),
    ensures
        value == domain_create_request_in(bytes@, at as int),
{
    DomainCreateRequest {
        image_handle: double_word(bytes, at),
        name: label(bytes, at + 8),
    }
}

/// The `MapRequest` at an offset.
pub open spec fn map_request_in(bytes: Seq<u8>, at: int) -> MapRequest {
    MapRequest {
        memory_handle: le(bytes, at, 8) as u64,
        vaddr: le(bytes, at + 8, 8) as u64,
        offset_pages: le(bytes, at + 16, 4) as u32,
        page_count: le(bytes, at + 20, 4) as u32,
        rights: le(bytes, at + 24, 4) as u32,
        reserved0: le(bytes, at + 28, 4) as u32,
    }
}

/// Reads a `MapRequest`.
pub fn read_map_request(bytes: &[u8], at: usize) -> (value: MapRequest)
    requires
        at <= 0x1000,
        at + 32 <= bytes@.len(),
    ensures
        value == map_request_in(bytes@, at as int),
{
    MapRequest {
        memory_handle: double_word(bytes, at),
        vaddr: double_word(bytes, at + 8),
        offset_pages: word(bytes, at + 16),
        page_count: word(bytes, at + 20),
        rights: word(bytes, at + 24),
        reserved0: word(bytes, at + 28),
    }
}

/// The `UnmapRequest` at an offset.
pub open spec fn unmap_request_in(bytes: Seq<u8>, at: int) -> UnmapRequest {
    UnmapRequest {
        vaddr: le(bytes, at, 8) as u64,
        page_count: le(bytes, at + 8, 4) as u32,
        reserved0: le(bytes, at + 12, 4) as u32,
    }
}

/// Reads a `UnmapRequest`.
pub fn read_unmap_request(bytes: &[u8], at: usize) -> (value: UnmapRequest)
    requires
        at <= 0x1000,
        at + 16 <= bytes@.len(),
    ensures
        value == unmap_request_in(bytes@, at as int),
{
    UnmapRequest {
        vaddr: double_word(bytes, at),
        page_count: word(bytes, at + 8),
        reserved0: word(bytes, at + 12),
    }
}

/// The `InstallCapRequest` at an offset.
pub open spec fn install_cap_request_in(bytes: Seq<u8>, at: int) -> InstallCapRequest {
    InstallCapRequest {
        source_handle: le(bytes, at, 8) as u64,
        target_slot: le(bytes, at + 8, 4) as u32,
        rights_mask: le(bytes, at + 12, 4) as u32,
        deadline_ns: le(bytes, at + 16, 8) as u64,
    }
}

/// Reads a `InstallCapRequest`.
pub fn read_install_cap_request(bytes: &[u8], at: usize) -> (value: InstallCapRequest)
    requires
        at <= 0x1000,
        at + 24 <= bytes@.len(),
    ensures
        value == install_cap_request_in(bytes@, at as int),
{
    InstallCapRequest {
        source_handle: double_word(bytes, at),
        target_slot: word(bytes, at + 8),
        rights_mask: word(bytes, at + 12),
        deadline_ns: double_word(bytes, at + 16),
    }
}

/// The `ThreadCreateRequest` at an offset.
pub open spec fn thread_create_request_in(bytes: Seq<u8>, at: int) -> ThreadCreateRequest {
    ThreadCreateRequest {
        entry: le(bytes, at, 8) as u64,
        stack_top: le(bytes, at + 8, 8) as u64,
        argument: le(bytes, at + 16, 8) as u64,
        reserved0: le(bytes, at + 24, 8) as u64,
    }
}

/// Reads a `ThreadCreateRequest`.
pub fn read_thread_create_request(bytes: &[u8], at: usize) -> (value: ThreadCreateRequest)
    requires
        at <= 0x1000,
        at + 32 <= bytes@.len(),
    ensures
        value == thread_create_request_in(bytes@, at as int),
{
    ThreadCreateRequest {
        entry: double_word(bytes, at),
        stack_top: double_word(bytes, at + 8),
        argument: double_word(bytes, at + 16),
        reserved0: double_word(bytes, at + 24),
    }
}

/// The `FaultChannelRequest` at an offset.
pub open spec fn fault_channel_request_in(bytes: Seq<u8>, at: int) -> FaultChannelRequest {
    FaultChannelRequest {
        endpoint_handle: le(bytes, at, 8) as u64,
        reserved0: le(bytes, at + 8, 8) as u64,
    }
}

/// Reads a `FaultChannelRequest`.
pub fn read_fault_channel_request(bytes: &[u8], at: usize) -> (value: FaultChannelRequest)
    requires
        at <= 0x1000,
        at + 16 <= bytes@.len(),
    ensures
        value == fault_channel_request_in(bytes@, at as int),
{
    FaultChannelRequest {
        endpoint_handle: double_word(bytes, at),
        reserved0: double_word(bytes, at + 8),
    }
}

/// The `MemoryCopyRequest` at an offset.
pub open spec fn memory_copy_request_in(bytes: Seq<u8>, at: int) -> MemoryCopyRequest {
    MemoryCopyRequest {
        source_handle: le(bytes, at, 8) as u64,
        source_offset: le(bytes, at + 8, 8) as u64,
        dest_offset: le(bytes, at + 16, 8) as u64,
        length: le(bytes, at + 24, 8) as u64,
    }
}

/// Reads a `MemoryCopyRequest`.
pub fn read_memory_copy_request(bytes: &[u8], at: usize) -> (value: MemoryCopyRequest)
    requires
        at <= 0x1000,
        at + 32 <= bytes@.len(),
    ensures
        value == memory_copy_request_in(bytes@, at as int),
{
    MemoryCopyRequest {
        source_handle: double_word(bytes, at),
        source_offset: double_word(bytes, at + 8),
        dest_offset: double_word(bytes, at + 16),
        length: double_word(bytes, at + 24),
    }
}

/// The `MemoryBytes` at an offset.
pub open spec fn memory_bytes_in(bytes: Seq<u8>, at: int) -> MemoryBytes {
    MemoryBytes {
        offset: le(bytes, at, 8) as u64,
        length: le(bytes, at + 8, 8) as u64,
        bytes: run_in::<MAX_INLINE_PAYLOAD>(bytes, at + 16),
    }
}

/// Reads a `MemoryBytes`.
pub fn read_memory_bytes(bytes: &[u8], at: usize) -> (value: MemoryBytes)
    requires
        at <= 0x1000,
        at + 272 <= bytes@.len(),
    ensures
        value == memory_bytes_in(bytes@, at as int),
{
    MemoryBytes {
        offset: double_word(bytes, at),
        length: double_word(bytes, at + 8),
        bytes: payload(bytes, at + 16),
    }
}

/// The `BindFacetRequest` at an offset.
pub open spec fn bind_facet_request_in(bytes: Seq<u8>, at: int) -> BindFacetRequest {
    BindFacetRequest {
        rights_mask: le(bytes, at, 4) as u32,
        reserved0: le(bytes, at + 4, 4) as u32,
        facet: le(bytes, at + 8, 8) as u64,
        deadline_ns: le(bytes, at + 16, 8) as u64,
    }
}

/// Reads a `BindFacetRequest`.
pub fn read_bind_facet_request(bytes: &[u8], at: usize) -> (value: BindFacetRequest)
    requires
        at <= 0x1000,
        at + 24 <= bytes@.len(),
    ensures
        value == bind_facet_request_in(bytes@, at as int),
{
    BindFacetRequest {
        rights_mask: word(bytes, at),
        reserved0: word(bytes, at + 4),
        facet: double_word(bytes, at + 8),
        deadline_ns: double_word(bytes, at + 16),
    }
}

/// The `SendRequest` at an offset.
pub open spec fn send_request_in(bytes: Seq<u8>, at: int) -> SendRequest {
    SendRequest {
        payload_len: le(bytes, at, 4) as u32,
        cap_count: le(bytes, at + 4, 4) as u32,
        caps: handles_in(bytes, at + 8),
        cap_ops: verbs_in(bytes, at + 40),
        payload: run_in::<MAX_INLINE_PAYLOAD>(bytes, at + 56),
    }
}

/// Reads a `SendRequest`.
pub fn read_send_request(bytes: &[u8], at: usize) -> (value: SendRequest)
    requires
        at <= 0x1000,
        at + 312 <= bytes@.len(),
    ensures
        value == send_request_in(bytes@, at as int),
{
    SendRequest {
        payload_len: word(bytes, at),
        cap_count: word(bytes, at + 4),
        caps: handles(bytes, at + 8),
        cap_ops: verbs(bytes, at + 40),
        payload: payload(bytes, at + 56),
    }
}

/// The `ReplyRequest` at an offset.
pub open spec fn reply_request_in(bytes: Seq<u8>, at: int) -> ReplyRequest {
    ReplyRequest {
        payload_len: le(bytes, at, 4) as u32,
        cap_count: le(bytes, at + 4, 4) as u32,
        caps: handles_in(bytes, at + 8),
        cap_ops: verbs_in(bytes, at + 40),
        result: le(bytes, at + 56, 8) as u64,
        payload: run_in::<MAX_INLINE_PAYLOAD>(bytes, at + 64),
    }
}

/// Reads a `ReplyRequest`.
pub fn read_reply_request(bytes: &[u8], at: usize) -> (value: ReplyRequest)
    requires
        at <= 0x1000,
        at + 320 <= bytes@.len(),
    ensures
        value == reply_request_in(bytes@, at as int),
{
    ReplyRequest {
        payload_len: word(bytes, at),
        cap_count: word(bytes, at + 4),
        caps: handles(bytes, at + 8),
        cap_ops: verbs(bytes, at + 40),
        result: double_word(bytes, at + 56),
        payload: payload(bytes, at + 64),
    }
}

/// The `EffectRequest` at an offset.
pub open spec fn effect_request_in(bytes: Seq<u8>, at: int) -> EffectRequest {
    EffectRequest {
        effect_kind: le(bytes, at, 4) as u32,
        reserved0: le(bytes, at + 4, 4) as u32,
        closure_reserve_ns: le(bytes, at + 8, 8) as u64,
    }
}

/// Reads a `EffectRequest`.
pub fn read_effect_request(bytes: &[u8], at: usize) -> (value: EffectRequest)
    requires
        at <= 0x1000,
        at + 16 <= bytes@.len(),
    ensures
        value == effect_request_in(bytes@, at as int),
{
    EffectRequest {
        effect_kind: word(bytes, at),
        reserved0: word(bytes, at + 4),
        closure_reserve_ns: double_word(bytes, at + 8),
    }
}

/// The `ResolveRequest` at an offset.
pub open spec fn resolve_request_in(bytes: Seq<u8>, at: int) -> ResolveRequest {
    ResolveRequest {
        outcome: le(bytes, at, 4) as u32,
        reserved0: le(bytes, at + 4, 4) as u32,
        detail: le(bytes, at + 8, 8) as u64,
    }
}

/// Reads a `ResolveRequest`.
pub fn read_resolve_request(bytes: &[u8], at: usize) -> (value: ResolveRequest)
    requires
        at <= 0x1000,
        at + 16 <= bytes@.len(),
    ensures
        value == resolve_request_in(bytes@, at as int),
{
    ResolveRequest {
        outcome: word(bytes, at),
        reserved0: word(bytes, at + 4),
        detail: double_word(bytes, at + 8),
    }
}

/// The `LogAppendRequest` at an offset.
pub open spec fn log_append_request_in(bytes: Seq<u8>, at: int) -> LogAppendRequest {
    LogAppendRequest {
        kind: le(bytes, at, 4) as u32,
        reserved0: le(bytes, at + 4, 4) as u32,
        claimed_origin_domain_id: le(bytes, at + 8, 8) as u64,
        a: le(bytes, at + 16, 8) as u64,
        b: le(bytes, at + 24, 8) as u64,
    }
}

/// Reads a `LogAppendRequest`.
pub fn read_log_append_request(bytes: &[u8], at: usize) -> (value: LogAppendRequest)
    requires
        at <= 0x1000,
        at + 32 <= bytes@.len(),
    ensures
        value == log_append_request_in(bytes@, at as int),
{
    LogAppendRequest {
        kind: word(bytes, at),
        reserved0: word(bytes, at + 4),
        claimed_origin_domain_id: double_word(bytes, at + 8),
        a: double_word(bytes, at + 16),
        b: double_word(bytes, at + 24),
    }
}

/// The `DeviceMapRequest` at an offset.
pub open spec fn device_map_request_in(bytes: Seq<u8>, at: int) -> DeviceMapRequest {
    DeviceMapRequest {
        session: le(bytes, at, 4) as u32,
        region_index: le(bytes, at + 4, 4) as u32,
        domain_handle: le(bytes, at + 8, 8) as u64,
        vaddr: le(bytes, at + 16, 8) as u64,
    }
}

/// Reads a `DeviceMapRequest`.
pub fn read_device_map_request(bytes: &[u8], at: usize) -> (value: DeviceMapRequest)
    requires
        at <= 0x1000,
        at + 24 <= bytes@.len(),
    ensures
        value == device_map_request_in(bytes@, at as int),
{
    DeviceMapRequest {
        session: word(bytes, at),
        region_index: word(bytes, at + 4),
        domain_handle: double_word(bytes, at + 8),
        vaddr: double_word(bytes, at + 16),
    }
}

/// The `DeviceIrqRequest` at an offset.
pub open spec fn device_irq_request_in(bytes: Seq<u8>, at: int) -> DeviceIrqRequest {
    DeviceIrqRequest {
        session: le(bytes, at, 4) as u32,
        vector_index: le(bytes, at + 4, 4) as u32,
        signal_handle: le(bytes, at + 8, 8) as u64,
        bits: le(bytes, at + 16, 8) as u64,
    }
}

/// Reads a `DeviceIrqRequest`.
pub fn read_device_irq_request(bytes: &[u8], at: usize) -> (value: DeviceIrqRequest)
    requires
        at <= 0x1000,
        at + 24 <= bytes@.len(),
    ensures
        value == device_irq_request_in(bytes@, at as int),
{
    DeviceIrqRequest {
        session: word(bytes, at),
        vector_index: word(bytes, at + 4),
        signal_handle: double_word(bytes, at + 8),
        bits: double_word(bytes, at + 16),
    }
}

/// The `DmaMapRequest` at an offset.
pub open spec fn dma_map_request_in(bytes: Seq<u8>, at: int) -> DmaMapRequest {
    DmaMapRequest {
        session: le(bytes, at, 4) as u32,
        reserved0: le(bytes, at + 4, 4) as u32,
        memory_handle: le(bytes, at + 8, 8) as u64,
        offset_pages: le(bytes, at + 16, 4) as u32,
        page_count: le(bytes, at + 20, 4) as u32,
        rights: le(bytes, at + 24, 4) as u32,
        required_profile: le(bytes, at + 28, 4) as u32,
    }
}

/// Reads a `DmaMapRequest`.
pub fn read_dma_map_request(bytes: &[u8], at: usize) -> (value: DmaMapRequest)
    requires
        at <= 0x1000,
        at + 32 <= bytes@.len(),
    ensures
        value == dma_map_request_in(bytes@, at as int),
{
    DmaMapRequest {
        session: word(bytes, at),
        reserved0: word(bytes, at + 4),
        memory_handle: double_word(bytes, at + 8),
        offset_pages: word(bytes, at + 16),
        page_count: word(bytes, at + 20),
        rights: word(bytes, at + 24),
        required_profile: word(bytes, at + 28),
    }
}

/// The `DmaUnmapRequest` at an offset.
pub open spec fn dma_unmap_request_in(bytes: Seq<u8>, at: int) -> DmaUnmapRequest {
    DmaUnmapRequest {
        session: le(bytes, at, 4) as u32,
        reserved0: le(bytes, at + 4, 4) as u32,
        iova: le(bytes, at + 8, 8) as u64,
    }
}

/// Reads a `DmaUnmapRequest`.
pub fn read_dma_unmap_request(bytes: &[u8], at: usize) -> (value: DmaUnmapRequest)
    requires
        at <= 0x1000,
        at + 16 <= bytes@.len(),
    ensures
        value == dma_unmap_request_in(bytes@, at as int),
{
    DmaUnmapRequest {
        session: word(bytes, at),
        reserved0: word(bytes, at + 4),
        iova: double_word(bytes, at + 8),
    }
}

pub(crate) fn push_word(out: &mut Vec<u8>, value: u32)
    ensures
        final(out)@ == old(out)@ + le_bytes(value as nat, 4),
{
    push(out, value as u64, 4);
}

pub(crate) fn push_double_word(out: &mut Vec<u8>, value: u64)
    ensures
        final(out)@ == old(out)@ + le_bytes(value as nat, 8),
{
    push(out, value, 8);
}

fn push(out: &mut Vec<u8>, value: u64, width: usize)
    requires
        width <= 8,
    ensures
        final(out)@ == old(out)@ + le_bytes(value as nat, width as nat),
{
    let ghost before = out@;
    let ghost whole = le_bytes(value as nat, width as nat);
    let mut rest: u64 = value;
    proof {
        le_bytes_len(value as nat, width as nat);
        assert(whole.skip(0) =~= whole);
        assert(before + whole.take(0) =~= before);
    }
    for i in 0..width
        invariant
            whole.len() == width,
            whole.skip(i as int) == le_bytes(rest as nat, (width - i) as nat),
            out@ == before + whole.take(i as int),
    {
        let ghost here = le_bytes(rest as nat, (width - i) as nat);
        let ghost next = le_bytes(rest as nat / 256, (width - i - 1) as nat);
        proof {
            le_bytes_len(rest as nat / 256, (width - i - 1) as nat);
            assert(whole.skip(i as int)[0] == whole[i as int]);
            assert(whole.skip(i + 1) =~= next) by {
                assert forall|k: int| 0 <= k < width - i - 1 implies #[trigger] whole.skip(
                    i + 1,
                )[k] == next[k] by {
                    assert(whole.skip(i as int)[k + 1] == here[k + 1]);
                }
            }
        }
        out.push((rest % 256) as u8);
        rest = rest / 256;
        assert(out@ =~= before + whole.take(i + 1));
    }
    assert(whole.take(width as int) =~= whole);
}

fn push_run(out: &mut Vec<u8>, run: &[u8])
    ensures
        final(out)@ == old(out)@ + run@,
{
    let ghost before = out@;
    assert(before + run@.take(0) =~= before);
    for i in 0..run.len()
        invariant
            out@ == before + run@.take(i as int),
    {
        out.push(run[i]);
        assert(out@ =~= before + run@.take(i + 1));
    }
    assert(run@.take(run@.len() as int) =~= run@);
}

/// Handles as bytes.
pub open spec fn handles_bytes(run: Seq<u64>) -> Seq<u8>
    decreases run.len(),
{
    if run.len() == 0 {
        Seq::empty()
    } else {
        handles_bytes(run.drop_last()) + le_bytes(run.last() as nat, 8)
    }
}

fn push_handles(out: &mut Vec<u8>, run: &[u64; MAX_MESSAGE_CAPS])
    ensures
        final(out)@ == old(out)@ + handles_bytes(run@),
{
    let ghost before = out@;
    assert(run@.take(0) =~= Seq::<u64>::empty());
    assert(before + handles_bytes(run@.take(0)) =~= before);
    for i in 0..MAX_MESSAGE_CAPS
        invariant
            out@ == before + handles_bytes(run@.take(i as int)),
    {
        assert(run@.take(i + 1).drop_last() =~= run@.take(i as int));
        push_double_word(out, run[i]);
        assert(out@ =~= before + handles_bytes(run@.take(i + 1)));
    }
    assert(run@.take(MAX_MESSAGE_CAPS as int) =~= run@);
}

/// A `CapInfo` as bytes.
pub open spec fn cap_info_bytes(value: CapInfo) -> Seq<u8> {
    le_bytes(value.object_type as nat, 4)
        + le_bytes(value.rights as nat, 4)
        + le_bytes(value.derive_depth as nat, 4)
        + le_bytes(value.lineage_state as nat, 4)
        + le_bytes(value.grant_id as nat, 8)
        + le_bytes(value.parent_grant_id as nat, 8)
        + le_bytes(value.deadline_ns as nat, 8)
        + le_bytes(value.life_scope_id as nat, 8)
        + le_bytes(value.object_id as nat, 8)
        + le_bytes(value.facet as nat, 8)
}

/// Writes a `CapInfo` behind what is there.
pub fn push_cap_info(out: &mut Vec<u8>, value: &CapInfo)
    ensures
        final(out)@ == old(out)@ + cap_info_bytes(*value),
{
    let ghost before = out@;
    push_word(out, value.object_type);
    push_word(out, value.rights);
    push_word(out, value.derive_depth);
    push_word(out, value.lineage_state);
    push_double_word(out, value.grant_id);
    push_double_word(out, value.parent_grant_id);
    push_double_word(out, value.deadline_ns);
    push_double_word(out, value.life_scope_id);
    push_double_word(out, value.object_id);
    push_double_word(out, value.facet);
    assert(out@ =~= before + cap_info_bytes(*value));
}

/// A `DrainReport` as bytes.
pub open spec fn drain_report_bytes(value: DrainReport) -> Seq<u8> {
    le_bytes(value.state as nat, 4)
        + le_bytes(value.threads_running as nat, 4)
        + le_bytes(value.invocations_pending as nat, 4)
        + le_bytes(value.effects_pending as nat, 4)
        + le_bytes(value.maps_pending as nat, 4)
        + le_bytes(value.undelivered_cancelled as nat, 4)
        + le_bytes(value.retained_pages as nat, 8)
        + le_bytes(value.retained_metadata as nat, 8)
        + le_bytes(value.last_progress_ns as nat, 8)
        + le_bytes(value.token as nat, 8)
}

/// Writes a `DrainReport` behind what is there.
pub fn push_drain_report(out: &mut Vec<u8>, value: &DrainReport)
    ensures
        final(out)@ == old(out)@ + drain_report_bytes(*value),
{
    let ghost before = out@;
    push_word(out, value.state);
    push_word(out, value.threads_running);
    push_word(out, value.invocations_pending);
    push_word(out, value.effects_pending);
    push_word(out, value.maps_pending);
    push_word(out, value.undelivered_cancelled);
    push_double_word(out, value.retained_pages);
    push_double_word(out, value.retained_metadata);
    push_double_word(out, value.last_progress_ns);
    push_double_word(out, value.token);
    assert(out@ =~= before + drain_report_bytes(*value));
}

/// A `ScopeLimits` as bytes.
pub open spec fn scope_limits_bytes(value: ScopeLimits) -> Seq<u8> {
    le_bytes(value.memory_pages as nat, 8)
        + le_bytes(value.metadata_objects as nat, 8)
        + le_bytes(value.cpu_budget_ns as nat, 8)
        + le_bytes(value.queue_bytes as nat, 8)
        + le_bytes(value.closure_reserve_ns as nat, 8)
        + le_bytes(value.parallelism as nat, 4)
        + le_bytes(value.reserved0 as nat, 4)
}

/// Writes a `ScopeLimits` behind what is there.
pub fn push_scope_limits(out: &mut Vec<u8>, value: &ScopeLimits)
    ensures
        final(out)@ == old(out)@ + scope_limits_bytes(*value),
{
    let ghost before = out@;
    push_double_word(out, value.memory_pages);
    push_double_word(out, value.metadata_objects);
    push_double_word(out, value.cpu_budget_ns);
    push_double_word(out, value.queue_bytes);
    push_double_word(out, value.closure_reserve_ns);
    push_word(out, value.parallelism);
    push_word(out, value.reserved0);
    assert(out@ =~= before + scope_limits_bytes(*value));
}

/// A `ScopeInfo` as bytes.
pub open spec fn scope_info_bytes(value: ScopeInfo) -> Seq<u8> {
    scope_limits_bytes(value.limits)
        + le_bytes(value.state as nat, 4)
        + le_bytes(value.depth as nat, 4)
        + le_bytes(value.parallelism_used as nat, 4)
        + le_bytes(value.threads as nat, 4)
        + le_bytes(value.scope_id as nat, 8)
        + le_bytes(value.parent_scope_id as nat, 8)
        + le_bytes(value.memory_pages_used as nat, 8)
        + le_bytes(value.metadata_used as nat, 8)
        + le_bytes(value.queue_bytes_used as nat, 8)
        + le_bytes(value.cpu_window_used_ns as nat, 8)
        + le_bytes(value.cpu_total_ns as nat, 8)
        + le_bytes(value.cpu_debt_ns as nat, 8)
        + le_bytes(value.closure_used_ns as nat, 8)
        + le_bytes(value.window_index as nat, 8)
}

/// Writes a `ScopeInfo` behind what is there.
pub fn push_scope_info(out: &mut Vec<u8>, value: &ScopeInfo)
    ensures
        final(out)@ == old(out)@ + scope_info_bytes(*value),
{
    let ghost before = out@;
    push_scope_limits(out, &value.limits);
    push_word(out, value.state);
    push_word(out, value.depth);
    push_word(out, value.parallelism_used);
    push_word(out, value.threads);
    push_double_word(out, value.scope_id);
    push_double_word(out, value.parent_scope_id);
    push_double_word(out, value.memory_pages_used);
    push_double_word(out, value.metadata_used);
    push_double_word(out, value.queue_bytes_used);
    push_double_word(out, value.cpu_window_used_ns);
    push_double_word(out, value.cpu_total_ns);
    push_double_word(out, value.cpu_debt_ns);
    push_double_word(out, value.closure_used_ns);
    push_double_word(out, value.window_index);
    assert(out@ =~= before + scope_info_bytes(*value));
}

/// A `DomainInfo` as bytes.
pub open spec fn domain_info_bytes(value: DomainInfo) -> Seq<u8> {
    le_bytes(value.state as nat, 4)
        + le_bytes(value.threads as nat, 4)
        + le_bytes(value.faults as nat, 4)
        + le_bytes(value.space_cpu_mask as nat, 4)
        + le_bytes(value.domain_id as nat, 8)
        + le_bytes(value.owner_scope_id as nat, 8)
        + le_bytes(value.exit_code as nat, 8)
        + le_bytes(value.fault_vector as nat, 8)
        + le_bytes(value.fault_rip as nat, 8)
        + le_bytes(value.charged_pages as nat, 8)
        + le_bytes(value.entry_point as nat, 8)
}

/// Writes a `DomainInfo` behind what is there.
pub fn push_domain_info(out: &mut Vec<u8>, value: &DomainInfo)
    ensures
        final(out)@ == old(out)@ + domain_info_bytes(*value),
{
    let ghost before = out@;
    push_word(out, value.state);
    push_word(out, value.threads);
    push_word(out, value.faults);
    push_word(out, value.space_cpu_mask);
    push_double_word(out, value.domain_id);
    push_double_word(out, value.owner_scope_id);
    push_double_word(out, value.exit_code);
    push_double_word(out, value.fault_vector);
    push_double_word(out, value.fault_rip);
    push_double_word(out, value.charged_pages);
    push_double_word(out, value.entry_point);
    assert(out@ =~= before + domain_info_bytes(*value));
}

/// A `MemoryInfo` as bytes.
pub open spec fn memory_info_bytes(value: MemoryInfo) -> Seq<u8> {
    le_bytes(value.state as nat, 4)
        + le_bytes(value.max_rights as nat, 4)
        + le_bytes(value.map_count as nat, 4)
        + le_bytes(value.writable_maps as nat, 4)
        + le_bytes(value.pages as nat, 8)
        + le_bytes(value.object_id as nat, 8)
        + le_bytes(value.sponsor_scope_id as nat, 8)
        + value.label@
}

/// Writes a `MemoryInfo` behind what is there.
pub fn push_memory_info(out: &mut Vec<u8>, value: &MemoryInfo)
    ensures
        final(out)@ == old(out)@ + memory_info_bytes(*value),
{
    let ghost before = out@;
    push_word(out, value.state);
    push_word(out, value.max_rights);
    push_word(out, value.map_count);
    push_word(out, value.writable_maps);
    push_double_word(out, value.pages);
    push_double_word(out, value.object_id);
    push_double_word(out, value.sponsor_scope_id);
    push_run(out, &value.label);
    assert(out@ =~= before + memory_info_bytes(*value));
}

/// A `EndpointInfo` as bytes.
pub open spec fn endpoint_info_bytes(value: EndpointInfo) -> Seq<u8> {
    le_bytes(value.queue_capacity as nat, 4)
        + le_bytes(value.queued as nat, 4)
        + le_bytes(value.reserved_cells as nat, 4)
        + le_bytes(value.facets as nat, 4)
        + le_bytes(value.epoch as nat, 8)
        + le_bytes(value.object_id as nat, 8)
        + le_bytes(value.admitted as nat, 8)
        + le_bytes(value.delivered as nat, 8)
}

/// Writes a `EndpointInfo` behind what is there.
pub fn push_endpoint_info(out: &mut Vec<u8>, value: &EndpointInfo)
    ensures
        final(out)@ == old(out)@ + endpoint_info_bytes(*value),
{
    let ghost before = out@;
    push_word(out, value.queue_capacity);
    push_word(out, value.queued);
    push_word(out, value.reserved_cells);
    push_word(out, value.facets);
    push_double_word(out, value.epoch);
    push_double_word(out, value.object_id);
    push_double_word(out, value.admitted);
    push_double_word(out, value.delivered);
    assert(out@ =~= before + endpoint_info_bytes(*value));
}

/// A `InvocationInfo` as bytes; behind the state of its effect stands a
/// word that is clear.
pub open spec fn invocation_info_bytes(value: InvocationInfo) -> Seq<u8> {
    le_bytes(value.state as nat, 4)
        + le_bytes(value.cancel_state as nat, 4)
        + le_bytes(value.effect_state as nat, 4)
        + le_bytes(0, 4)
        + le_bytes(value.invocation_id as nat, 8)
        + le_bytes(value.origin_domain_id as nat, 8)
        + le_bytes(value.origin_scope_id as nat, 8)
        + le_bytes(value.facet as nat, 8)
        + le_bytes(value.grant_id as nat, 8)
        + le_bytes(value.admitted_ns as nat, 8)
}

/// Writes a `InvocationInfo` behind what is there.
pub fn push_invocation_info(out: &mut Vec<u8>, value: &InvocationInfo)
    ensures
        final(out)@ == old(out)@ + invocation_info_bytes(*value),
{
    let ghost before = out@;
    push_word(out, value.state);
    push_word(out, value.cancel_state);
    push_word(out, value.effect_state);
    push_word(out, 0);
    push_double_word(out, value.invocation_id);
    push_double_word(out, value.origin_domain_id);
    push_double_word(out, value.origin_scope_id);
    push_double_word(out, value.facet);
    push_double_word(out, value.grant_id);
    push_double_word(out, value.admitted_ns);
    assert(out@ =~= before + invocation_info_bytes(*value));
}

/// A `SignalInfo` as bytes; at its end stands a
/// word that is clear.
pub open spec fn signal_info_bytes(value: SignalInfo) -> Seq<u8> {
    le_bytes(value.bits as nat, 8)
        + le_bytes(value.sequence as nat, 8)
        + le_bytes(value.object_id as nat, 8)
        + le_bytes(value.waiters as nat, 4)
        + le_bytes(0, 4)
}

/// Writes a `SignalInfo` behind what is there.
pub fn push_signal_info(out: &mut Vec<u8>, value: &SignalInfo)
    ensures
        final(out)@ == old(out)@ + signal_info_bytes(*value),
{
    let ghost before = out@;
    push_double_word(out, value.bits);
    push_double_word(out, value.sequence);
    push_double_word(out, value.object_id);
    push_word(out, value.waiters);
    push_word(out, 0);
    assert(out@ =~= before + signal_info_bytes(*value));
}

/// A `TimerInfo` as bytes; behind whether it is armed stands a
/// word that is clear.
pub open spec fn timer_info_bytes(value: TimerInfo) -> Seq<u8> {
    le_bytes(value.armed as nat, 4)
        + le_bytes(0, 4)
        + le_bytes(value.deadline_ns as nat, 8)
        + le_bytes(value.fired as nat, 8)
        + le_bytes(value.object_id as nat, 8)
}

/// Writes a `TimerInfo` behind what is there.
pub fn push_timer_info(out: &mut Vec<u8>, value: &TimerInfo)
    ensures
        final(out)@ == old(out)@ + timer_info_bytes(*value),
{
    let ghost before = out@;
    push_word(out, value.armed);
    push_word(out, 0);
    push_double_word(out, value.deadline_ns);
    push_double_word(out, value.fired);
    push_double_word(out, value.object_id);
    assert(out@ =~= before + timer_info_bytes(*value));
}

/// A `LogInfo` as bytes.
pub open spec fn log_info_bytes(value: LogInfo) -> Seq<u8> {
    le_bytes(value.capacity as nat, 4)
        + le_bytes(value.reserved_cells as nat, 4)
        + le_bytes(value.used as nat, 4)
        + le_bytes(value.lost as nat, 4)
        + le_bytes(value.next_sequence as nat, 8)
        + le_bytes(value.oldest_sequence as nat, 8)
        + le_bytes(value.object_id as nat, 8)
}

/// Writes a `LogInfo` behind what is there.
pub fn push_log_info(out: &mut Vec<u8>, value: &LogInfo)
    ensures
        final(out)@ == old(out)@ + log_info_bytes(*value),
{
    let ghost before = out@;
    push_word(out, value.capacity);
    push_word(out, value.reserved_cells);
    push_word(out, value.used);
    push_word(out, value.lost);
    push_double_word(out, value.next_sequence);
    push_double_word(out, value.oldest_sequence);
    push_double_word(out, value.object_id);
    assert(out@ =~= before + log_info_bytes(*value));
}

/// A `DeviceRegion` as bytes.
pub open spec fn device_region_bytes(value: DeviceRegion) -> Seq<u8> {
    le_bytes(value.kind as nat, 4)
        + le_bytes(value.bar as nat, 4)
        + le_bytes(value.offset as nat, 8)
        + le_bytes(value.length as nat, 8)
        + le_bytes(value.flags as nat, 4)
        + le_bytes(value.notify_off_multiplier as nat, 4)
}

/// Writes a `DeviceRegion` behind what is there.
pub fn push_device_region(out: &mut Vec<u8>, value: &DeviceRegion)
    ensures
        final(out)@ == old(out)@ + device_region_bytes(*value),
{
    let ghost before = out@;
    push_word(out, value.kind);
    push_word(out, value.bar);
    push_double_word(out, value.offset);
    push_double_word(out, value.length);
    push_word(out, value.flags);
    push_word(out, value.notify_off_multiplier);
    assert(out@ =~= before + device_region_bytes(*value));
}

/// Register windows as bytes.
pub open spec fn device_regions_bytes(run: Seq<DeviceRegion>) -> Seq<u8>
    decreases run.len(),
{
    if run.len() == 0 {
        Seq::empty()
    } else {
        device_regions_bytes(run.drop_last()) + device_region_bytes(run.last())
    }
}

fn push_device_regions(out: &mut Vec<u8>, run: &[DeviceRegion; MAX_DEVICE_REGIONS])
    ensures
        final(out)@ == old(out)@ + device_regions_bytes(run@),
{
    let ghost before = out@;
    assert(run@.take(0) =~= Seq::<DeviceRegion>::empty());
    assert(before + device_regions_bytes(run@.take(0)) =~= before);
    for i in 0..MAX_DEVICE_REGIONS
        invariant
            out@ == before + device_regions_bytes(run@.take(i as int)),
    {
        assert(run@.take(i + 1).drop_last() =~= run@.take(i as int));
        push_device_region(out, &run[i]);
        assert(out@ =~= before + device_regions_bytes(run@.take(i + 1)));
    }
    assert(run@.take(MAX_DEVICE_REGIONS as int) =~= run@);
}

/// A `DeviceInfo` as bytes; behind the members of its group stands a
/// word that is clear.
pub open spec fn device_info_bytes(value: DeviceInfo) -> Seq<u8> {
    le_bytes(value.state as nat, 4)
        + le_bytes(value.session as nat, 4)
        + le_bytes(value.bdf as nat, 4)
        + le_bytes(value.vendor_id as nat, 4)
        + le_bytes(value.device_id as nat, 4)
        + le_bytes(value.class_code as nat, 4)
        + le_bytes(value.region_count as nat, 4)
        + le_bytes(value.irq_bound as nat, 4)
        + le_bytes(value.dma_grants as nat, 4)
        + le_bytes(value.dma_profile as nat, 4)
        + le_bytes(value.iommu_described as nat, 4)
        + le_bytes(value.iommu_translating as nat, 4)
        + le_bytes(value.access_platform as nat, 4)
        + le_bytes(value.bus_master as nat, 4)
        + le_bytes(value.dma_address_bits as nat, 4)
        + le_bytes(value.isolation_group as nat, 4)
        + le_bytes(value.group_members as nat, 4)
        + le_bytes(0, 4)
        + le_bytes(value.object_id as nat, 8)
        + le_bytes(value.sponsor_scope_id as nat, 8)
        + value.label@
        + device_regions_bytes(value.regions@)
}

/// Writes a `DeviceInfo` behind what is there.
pub fn push_device_info(out: &mut Vec<u8>, value: &DeviceInfo)
    ensures
        final(out)@ == old(out)@ + device_info_bytes(*value),
{
    let ghost before = out@;
    push_word(out, value.state);
    push_word(out, value.session);
    push_word(out, value.bdf);
    push_word(out, value.vendor_id);
    push_word(out, value.device_id);
    push_word(out, value.class_code);
    push_word(out, value.region_count);
    push_word(out, value.irq_bound);
    push_word(out, value.dma_grants);
    push_word(out, value.dma_profile);
    push_word(out, value.iommu_described);
    push_word(out, value.iommu_translating);
    push_word(out, value.access_platform);
    push_word(out, value.bus_master);
    push_word(out, value.dma_address_bits);
    push_word(out, value.isolation_group);
    push_word(out, value.group_members);
    push_word(out, 0);
    push_double_word(out, value.object_id);
    push_double_word(out, value.sponsor_scope_id);
    push_run(out, &value.label);
    push_device_regions(out, &value.regions);
    assert(out@ =~= before + device_info_bytes(*value));
}

/// A `DmaGrantInfo` as bytes.
pub open spec fn dma_grant_info_bytes(value: DmaGrantInfo) -> Seq<u8> {
    le_bytes(value.iova as nat, 8)
        + le_bytes(value.length as nat, 8)
        + le_bytes(value.rights as nat, 4)
        + le_bytes(value.profile as nat, 4)
        + le_bytes(value.session as nat, 4)
        + le_bytes(value.grant_index as nat, 4)
        + le_bytes(value.memory_object_id as nat, 8)
}

/// Writes a `DmaGrantInfo` behind what is there.
pub fn push_dma_grant_info(out: &mut Vec<u8>, value: &DmaGrantInfo)
    ensures
        final(out)@ == old(out)@ + dma_grant_info_bytes(*value),
{
    let ghost before = out@;
    push_double_word(out, value.iova);
    push_double_word(out, value.length);
    push_word(out, value.rights);
    push_word(out, value.profile);
    push_word(out, value.session);
    push_word(out, value.grant_index);
    push_double_word(out, value.memory_object_id);
    assert(out@ =~= before + dma_grant_info_bytes(*value));
}

/// A `MemoryBytes` as bytes.
pub open spec fn memory_bytes_bytes(value: MemoryBytes) -> Seq<u8> {
    le_bytes(value.offset as nat, 8)
        + le_bytes(value.length as nat, 8)
        + value.bytes@
}

/// Writes a `MemoryBytes` behind what is there.
pub fn push_memory_bytes(out: &mut Vec<u8>, value: &MemoryBytes)
    ensures
        final(out)@ == old(out)@ + memory_bytes_bytes(*value),
{
    let ghost before = out@;
    push_double_word(out, value.offset);
    push_double_word(out, value.length);
    push_run(out, &value.bytes);
    assert(out@ =~= before + memory_bytes_bytes(*value));
}

/// A `MessageHeader` as bytes.
pub open spec fn message_header_bytes(value: MessageHeader) -> Seq<u8> {
    le_bytes(value.epoch as nat, 8)
        + le_bytes(value.invocation_id as nat, 8)
        + le_bytes(value.sender_domain_id as nat, 8)
        + le_bytes(value.sender_scope_id as nat, 8)
        + le_bytes(value.parent_invocation_id as nat, 8)
        + le_bytes(value.facet as nat, 8)
        + le_bytes(value.grant_id as nat, 8)
        + le_bytes(value.sent_ns as nat, 8)
        + le_bytes(value.rights_transferred as nat, 4)
        + le_bytes(value.cancel_state as nat, 4)
        + le_bytes(value.kind as nat, 4)
        + le_bytes(value.payload_len as nat, 4)
}

/// Writes a `MessageHeader` behind what is there.
pub fn push_message_header(out: &mut Vec<u8>, value: &MessageHeader)
    ensures
        final(out)@ == old(out)@ + message_header_bytes(*value),
{
    let ghost before = out@;
    push_double_word(out, value.epoch);
    push_double_word(out, value.invocation_id);
    push_double_word(out, value.sender_domain_id);
    push_double_word(out, value.sender_scope_id);
    push_double_word(out, value.parent_invocation_id);
    push_double_word(out, value.facet);
    push_double_word(out, value.grant_id);
    push_double_word(out, value.sent_ns);
    push_word(out, value.rights_transferred);
    push_word(out, value.cancel_state);
    push_word(out, value.kind);
    push_word(out, value.payload_len);
    assert(out@ =~= before + message_header_bytes(*value));
}

/// A `ReceiveResult` as bytes; behind the number of its capabilities stands a
/// word that is clear.
pub open spec fn receive_result_bytes(value: ReceiveResult) -> Seq<u8> {
    message_header_bytes(value.header)
        + le_bytes(value.cap_count as nat, 4)
        + le_bytes(0, 4)
        + handles_bytes(value.caps@)
        + value.payload@
}

/// Writes a `ReceiveResult` behind what is there.
pub fn push_receive_result(out: &mut Vec<u8>, value: &ReceiveResult)
    ensures
        final(out)@ == old(out)@ + receive_result_bytes(*value),
{
    let ghost before = out@;
    push_message_header(out, &value.header);
    push_word(out, value.cap_count);
    push_word(out, 0);
    push_handles(out, &value.caps);
    push_run(out, &value.payload);
    assert(out@ =~= before + receive_result_bytes(*value));
}

/// A `CallResult` as bytes.
pub open spec fn call_result_bytes(value: CallResult) -> Seq<u8> {
    le_bytes(value.payload_len as nat, 4)
        + le_bytes(value.cap_count as nat, 4)
        + handles_bytes(value.caps@)
        + le_bytes(value.result as nat, 8)
        + le_bytes(value.invocation_id as nat, 8)
        + value.payload@
}

/// Writes a `CallResult` behind what is there.
pub fn push_call_result(out: &mut Vec<u8>, value: &CallResult)
    ensures
        final(out)@ == old(out)@ + call_result_bytes(*value),
{
    let ghost before = out@;
    push_word(out, value.payload_len);
    push_word(out, value.cap_count);
    push_handles(out, &value.caps);
    push_double_word(out, value.result);
    push_double_word(out, value.invocation_id);
    push_run(out, &value.payload);
    assert(out@ =~= before + call_result_bytes(*value));
}

/// A signed number as the bits that stand for it.
pub open spec fn bits_of(value: i64) -> nat {
    if value >= 0 {
        value as nat
    } else {
        (0x1_0000_0000_0000_0000 + value) as nat
    }
}

fn to_bits(value: i64) -> (bits: u64)
    ensures
        bits == bits_of(value),
{
    if value >= 0 {
        value as u64
    } else {
        u64::MAX - (-(value + 1)) as u64
    }
}

/// A receipt as bytes.
pub open spec fn receipt_bytes(value: ReceiptRecord) -> Seq<u8> {
    le_bytes(value.schema as nat, 4) + le_bytes(value.kind as nat, 4) + le_bytes(
        value.sequence as nat,
        8,
    ) + le_bytes(value.epoch as nat, 8) + le_bytes(value.ns as nat, 8) + le_bytes(
        value.origin_domain_id as nat,
        8,
    ) + le_bytes(value.origin_scope_id as nat, 8) + le_bytes(value.object_id as nat, 8) + le_bytes(
        value.grant_id as nat,
        8,
    ) + le_bytes(value.parent_invocation_id as nat, 8) + le_bytes(bits_of(value.result), 8)
        + le_bytes(value.a as nat, 8) + le_bytes(value.b as nat, 8)
}

/// Writes a receipt behind what is there.
pub fn push_receipt(out: &mut Vec<u8>, value: &ReceiptRecord)
    ensures
        final(out)@ == old(out)@ + receipt_bytes(*value),
{
    let ghost before = out@;
    push_word(out, value.schema);
    push_word(out, value.kind);
    push_double_word(out, value.sequence);
    push_double_word(out, value.epoch);
    push_double_word(out, value.ns);
    push_double_word(out, value.origin_domain_id);
    push_double_word(out, value.origin_scope_id);
    push_double_word(out, value.object_id);
    push_double_word(out, value.grant_id);
    push_double_word(out, value.parent_invocation_id);
    push_double_word(out, to_bits(value.result));
    push_double_word(out, value.a);
    push_double_word(out, value.b);
    assert(out@ =~= before + receipt_bytes(*value));
}

} // verus!
