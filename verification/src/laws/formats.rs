//! The bytes of requests and answers: every field stands at its place, little end
//! first, one behind the other.

use vstd::prelude::*;

use crate::abi::request::{
    CapInfo, DeviceRegion, DmaGrantInfo, DomainInfo, DrainReport, EndpointInfo, InvocationInfo,
    LogInfo, MemoryInfo, MessageHeader, ScopeLimits, SignalInfo, TimerInfo,
};
use crate::abi::wire::{
    bind_facet_request_in, bits_of, cap_info_bytes, derive_request_in, device_irq_request_in,
    device_map_request_in, device_region_bytes, dma_grant_info_bytes, dma_map_request_in,
    dma_unmap_request_in, domain_create_request_in, domain_info_bytes, drain_report_bytes,
    effect_request_in, endpoint_create_request_in, endpoint_info_bytes, fault_channel_request_in,
    install_cap_request_in, invocation_info_bytes, log_append_request_in, log_info_bytes,
    map_request_in, memory_bytes_in, memory_copy_request_in, memory_create_request_in,
    memory_info_bytes, message_header_bytes, receipt_bytes, reply_request_in, resolve_request_in,
    scope_create_request_in, scope_limits_bytes, scope_limits_in, send_request_in,
    signal_info_bytes, thread_create_request_in, timer_create_request_in, timer_info_bytes,
    unmap_request_in,
};
use crate::bytes::{le, le_bytes, le_bytes_len, written_number_reads_back};
use crate::ctrl::ReceiptRecord;
use crate::limits::{MAX_INLINE_PAYLOAD, MAX_MESSAGE_CAPS};

verus! {

proof fn numbers_fit(s: Seq<u8>)
    ensures
        forall|at: int| #[trigger] le(s, at, 4) <= u32::MAX,
        forall|at: int| #[trigger] le(s, at, 8) <= u64::MAX,
{
    reveal_with_fuel(le, 9);
}

proof fn word_reads_back(s: Seq<u8>, at: int, value: nat)
    requires
        0 <= at,
        at + 4 <= s.len(),
        value <= u32::MAX,
        s.subrange(at, at + 4) =~= le_bytes(value, 4),
    ensures
        le(s, at, 4) == value,
{
    written_number_reads_back(s, at, value, 4);
    assert(vstd::arithmetic::power::pow(256, 4) == 0x1_0000_0000) by {
        reveal_with_fuel(vstd::arithmetic::power::pow, 5);
    }
    vstd::arithmetic::div_mod::lemma_small_mod(value, 0x1_0000_0000);
}

proof fn double_word_reads_back(s: Seq<u8>, at: int, value: nat)
    requires
        0 <= at,
        at + 8 <= s.len(),
        value <= u64::MAX,
        s.subrange(at, at + 8) =~= le_bytes(value, 8),
    ensures
        le(s, at, 8) == value,
{
    crate::laws::obligations::word_reads_back(s, at, value);
}

proof fn widths_are_kept()
    ensures
        forall|v: nat| (#[trigger] le_bytes(v, 4)).len() == 4,
        forall|v: nat| (#[trigger] le_bytes(v, 8)).len() == 8,
{
    assert forall|v: nat| (#[trigger] le_bytes(v, 4)).len() == 4 by {
        le_bytes_len(v, 4);
    }
    assert forall|v: nat| (#[trigger] le_bytes(v, 8)).len() == 8 by {
        le_bytes_len(v, 8);
    }
}

/// A derive request is read from 24 bytes in order.
pub proof fn derive_request_is_read_in_order(bytes: Seq<u8>, at: int)
    requires
        0 <= at,
        at + 24 <= bytes.len(),
    ensures
        ({
            let value = derive_request_in(bytes, at);
            &&& value.rights_mask == le(bytes, at, 4)
            &&& value.reserved0 == le(bytes, at + 4, 4)
            &&& value.deadline_ns == le(bytes, at + 8, 8)
            &&& value.life_scope == le(bytes, at + 16, 8)
        }),
{
    numbers_fit(bytes);
}

/// A scope limits is read from 48 bytes in order.
pub proof fn scope_limits_is_read_in_order(bytes: Seq<u8>, at: int)
    requires
        0 <= at,
        at + 48 <= bytes.len(),
    ensures
        ({
            let value = scope_limits_in(bytes, at);
            &&& value.memory_pages == le(bytes, at, 8)
            &&& value.metadata_objects == le(bytes, at + 8, 8)
            &&& value.cpu_budget_ns == le(bytes, at + 16, 8)
            &&& value.queue_bytes == le(bytes, at + 24, 8)
            &&& value.closure_reserve_ns == le(bytes, at + 32, 8)
            &&& value.parallelism == le(bytes, at + 40, 4)
            &&& value.reserved0 == le(bytes, at + 44, 4)
        }),
{
    numbers_fit(bytes);
}

/// A scope create request is read from 64 bytes in order.
pub proof fn scope_create_request_is_read_in_order(bytes: Seq<u8>, at: int)
    requires
        0 <= at,
        at + 64 <= bytes.len(),
    ensures
        ({
            let value = scope_create_request_in(bytes, at);
            &&& value.limits.memory_pages == le(bytes, at, 8)
            &&& value.limits.metadata_objects == le(bytes, at + 8, 8)
            &&& value.limits.cpu_budget_ns == le(bytes, at + 16, 8)
            &&& value.limits.queue_bytes == le(bytes, at + 24, 8)
            &&& value.limits.closure_reserve_ns == le(bytes, at + 32, 8)
            &&& value.limits.parallelism == le(bytes, at + 40, 4)
            &&& value.limits.reserved0 == le(bytes, at + 44, 4)
            &&& forall|i: int| 0 <= i < 16 ==> #[trigger] value.label@[i] == bytes[at + 48 + i]
        }),
{
    numbers_fit(bytes);
    crate::bytes::array_of_holds::<u8, 16>(bytes.subrange(at + 48, at + 48 + 16));
}

/// A memory create request is read from 32 bytes in order.
pub proof fn memory_create_request_is_read_in_order(bytes: Seq<u8>, at: int)
    requires
        0 <= at,
        at + 32 <= bytes.len(),
    ensures
        ({
            let value = memory_create_request_in(bytes, at);
            &&& value.pages == le(bytes, at, 8)
            &&& value.max_rights == le(bytes, at + 8, 4)
            &&& value.reserved0 == le(bytes, at + 12, 4)
            &&& forall|i: int| 0 <= i < 16 ==> #[trigger] value.label@[i] == bytes[at + 16 + i]
        }),
{
    numbers_fit(bytes);
    crate::bytes::array_of_holds::<u8, 16>(bytes.subrange(at + 16, at + 16 + 16));
}

/// A endpoint create request is read from 24 bytes in order.
pub proof fn endpoint_create_request_is_read_in_order(bytes: Seq<u8>, at: int)
    requires
        0 <= at,
        at + 24 <= bytes.len(),
    ensures
        ({
            let value = endpoint_create_request_in(bytes, at);
            &&& value.queue_capacity == le(bytes, at, 4)
            &&& value.reserved0 == le(bytes, at + 4, 4)
            &&& forall|i: int| 0 <= i < 16 ==> #[trigger] value.label@[i] == bytes[at + 8 + i]
        }),
{
    numbers_fit(bytes);
    crate::bytes::array_of_holds::<u8, 16>(bytes.subrange(at + 8, at + 8 + 16));
}

/// A timer create request is read from 16 bytes in order.
pub proof fn timer_create_request_is_read_in_order(bytes: Seq<u8>, at: int)
    requires
        0 <= at,
        at + 16 <= bytes.len(),
    ensures
        ({
            let value = timer_create_request_in(bytes, at);
            &&& value.signal_handle == le(bytes, at, 8)
            &&& value.bits == le(bytes, at + 8, 8)
        }),
{
    numbers_fit(bytes);
}

/// A domain create request is read from 24 bytes in order.
pub proof fn domain_create_request_is_read_in_order(bytes: Seq<u8>, at: int)
    requires
        0 <= at,
        at + 24 <= bytes.len(),
    ensures
        ({
            let value = domain_create_request_in(bytes, at);
            &&& value.image_handle == le(bytes, at, 8)
            &&& forall|i: int| 0 <= i < 16 ==> #[trigger] value.name@[i] == bytes[at + 8 + i]
        }),
{
    numbers_fit(bytes);
    crate::bytes::array_of_holds::<u8, 16>(bytes.subrange(at + 8, at + 8 + 16));
}

/// A map request is read from 32 bytes in order.
pub proof fn map_request_is_read_in_order(bytes: Seq<u8>, at: int)
    requires
        0 <= at,
        at + 32 <= bytes.len(),
    ensures
        ({
            let value = map_request_in(bytes, at);
            &&& value.memory_handle == le(bytes, at, 8)
            &&& value.vaddr == le(bytes, at + 8, 8)
            &&& value.offset_pages == le(bytes, at + 16, 4)
            &&& value.page_count == le(bytes, at + 20, 4)
            &&& value.rights == le(bytes, at + 24, 4)
            &&& value.reserved0 == le(bytes, at + 28, 4)
        }),
{
    numbers_fit(bytes);
}

/// A unmap request is read from 16 bytes in order.
pub proof fn unmap_request_is_read_in_order(bytes: Seq<u8>, at: int)
    requires
        0 <= at,
        at + 16 <= bytes.len(),
    ensures
        ({
            let value = unmap_request_in(bytes, at);
            &&& value.vaddr == le(bytes, at, 8)
            &&& value.page_count == le(bytes, at + 8, 4)
            &&& value.reserved0 == le(bytes, at + 12, 4)
        }),
{
    numbers_fit(bytes);
}

/// A install cap request is read from 24 bytes in order.
pub proof fn install_cap_request_is_read_in_order(bytes: Seq<u8>, at: int)
    requires
        0 <= at,
        at + 24 <= bytes.len(),
    ensures
        ({
            let value = install_cap_request_in(bytes, at);
            &&& value.source_handle == le(bytes, at, 8)
            &&& value.target_slot == le(bytes, at + 8, 4)
            &&& value.rights_mask == le(bytes, at + 12, 4)
            &&& value.deadline_ns == le(bytes, at + 16, 8)
        }),
{
    numbers_fit(bytes);
}

/// A thread create request is read from 32 bytes in order.
pub proof fn thread_create_request_is_read_in_order(bytes: Seq<u8>, at: int)
    requires
        0 <= at,
        at + 32 <= bytes.len(),
    ensures
        ({
            let value = thread_create_request_in(bytes, at);
            &&& value.entry == le(bytes, at, 8)
            &&& value.stack_top == le(bytes, at + 8, 8)
            &&& value.argument == le(bytes, at + 16, 8)
            &&& value.reserved0 == le(bytes, at + 24, 8)
        }),
{
    numbers_fit(bytes);
}

/// A fault channel request is read from 16 bytes in order.
pub proof fn fault_channel_request_is_read_in_order(bytes: Seq<u8>, at: int)
    requires
        0 <= at,
        at + 16 <= bytes.len(),
    ensures
        ({
            let value = fault_channel_request_in(bytes, at);
            &&& value.endpoint_handle == le(bytes, at, 8)
            &&& value.reserved0 == le(bytes, at + 8, 8)
        }),
{
    numbers_fit(bytes);
}

/// A memory copy request is read from 32 bytes in order.
pub proof fn memory_copy_request_is_read_in_order(bytes: Seq<u8>, at: int)
    requires
        0 <= at,
        at + 32 <= bytes.len(),
    ensures
        ({
            let value = memory_copy_request_in(bytes, at);
            &&& value.source_handle == le(bytes, at, 8)
            &&& value.source_offset == le(bytes, at + 8, 8)
            &&& value.dest_offset == le(bytes, at + 16, 8)
            &&& value.length == le(bytes, at + 24, 8)
        }),
{
    numbers_fit(bytes);
}

/// A memory bytes is read from 272 bytes in order.
pub proof fn memory_bytes_is_read_in_order(bytes: Seq<u8>, at: int)
    requires
        0 <= at,
        at + 272 <= bytes.len(),
    ensures
        ({
            let value = memory_bytes_in(bytes, at);
            &&& value.offset == le(bytes, at, 8)
            &&& value.length == le(bytes, at + 8, 8)
            &&& forall|i: int| 0 <= i < MAX_INLINE_PAYLOAD ==> #[trigger] value.bytes@[i] == bytes[at + 16 + i]
        }),
{
    numbers_fit(bytes);
    crate::bytes::array_of_holds::<u8, MAX_INLINE_PAYLOAD>(bytes.subrange(at + 16, at + 16 + MAX_INLINE_PAYLOAD));
}

/// A bind facet request is read from 24 bytes in order.
pub proof fn bind_facet_request_is_read_in_order(bytes: Seq<u8>, at: int)
    requires
        0 <= at,
        at + 24 <= bytes.len(),
    ensures
        ({
            let value = bind_facet_request_in(bytes, at);
            &&& value.rights_mask == le(bytes, at, 4)
            &&& value.reserved0 == le(bytes, at + 4, 4)
            &&& value.facet == le(bytes, at + 8, 8)
            &&& value.deadline_ns == le(bytes, at + 16, 8)
        }),
{
    numbers_fit(bytes);
}

/// A send request is read from 312 bytes in order.
pub proof fn send_request_is_read_in_order(bytes: Seq<u8>, at: int)
    requires
        0 <= at,
        at + 312 <= bytes.len(),
    ensures
        ({
            let value = send_request_in(bytes, at);
            &&& value.payload_len == le(bytes, at, 4)
            &&& value.cap_count == le(bytes, at + 4, 4)
            &&& forall|i: int| 0 <= i < MAX_MESSAGE_CAPS ==> #[trigger] value.caps@[i] == le(bytes, at + 8 + 8 * i, 8)
            &&& forall|i: int| 0 <= i < MAX_MESSAGE_CAPS ==> #[trigger] value.cap_ops@[i] == le(bytes, at + 40 + 4 * i, 4)
            &&& forall|i: int| 0 <= i < MAX_INLINE_PAYLOAD ==> #[trigger] value.payload@[i] == bytes[at + 56 + i]
        }),
{
    numbers_fit(bytes);
    crate::bytes::array_of_holds::<u64, MAX_MESSAGE_CAPS>(
        Seq::new(MAX_MESSAGE_CAPS as nat, |i: int| le(bytes, at + 8 + 8 * i, 8) as u64),
    );
    crate::bytes::array_of_holds::<u32, MAX_MESSAGE_CAPS>(
        Seq::new(MAX_MESSAGE_CAPS as nat, |i: int| le(bytes, at + 40 + 4 * i, 4) as u32),
    );
    crate::bytes::array_of_holds::<u8, MAX_INLINE_PAYLOAD>(bytes.subrange(at + 56, at + 56 + MAX_INLINE_PAYLOAD));
}

/// A reply request is read from 320 bytes in order.
pub proof fn reply_request_is_read_in_order(bytes: Seq<u8>, at: int)
    requires
        0 <= at,
        at + 320 <= bytes.len(),
    ensures
        ({
            let value = reply_request_in(bytes, at);
            &&& value.payload_len == le(bytes, at, 4)
            &&& value.cap_count == le(bytes, at + 4, 4)
            &&& forall|i: int| 0 <= i < MAX_MESSAGE_CAPS ==> #[trigger] value.caps@[i] == le(bytes, at + 8 + 8 * i, 8)
            &&& forall|i: int| 0 <= i < MAX_MESSAGE_CAPS ==> #[trigger] value.cap_ops@[i] == le(bytes, at + 40 + 4 * i, 4)
            &&& value.result == le(bytes, at + 56, 8)
            &&& forall|i: int| 0 <= i < MAX_INLINE_PAYLOAD ==> #[trigger] value.payload@[i] == bytes[at + 64 + i]
        }),
{
    numbers_fit(bytes);
    crate::bytes::array_of_holds::<u64, MAX_MESSAGE_CAPS>(
        Seq::new(MAX_MESSAGE_CAPS as nat, |i: int| le(bytes, at + 8 + 8 * i, 8) as u64),
    );
    crate::bytes::array_of_holds::<u32, MAX_MESSAGE_CAPS>(
        Seq::new(MAX_MESSAGE_CAPS as nat, |i: int| le(bytes, at + 40 + 4 * i, 4) as u32),
    );
    crate::bytes::array_of_holds::<u8, MAX_INLINE_PAYLOAD>(bytes.subrange(at + 64, at + 64 + MAX_INLINE_PAYLOAD));
}

/// A effect request is read from 16 bytes in order.
pub proof fn effect_request_is_read_in_order(bytes: Seq<u8>, at: int)
    requires
        0 <= at,
        at + 16 <= bytes.len(),
    ensures
        ({
            let value = effect_request_in(bytes, at);
            &&& value.effect_kind == le(bytes, at, 4)
            &&& value.reserved0 == le(bytes, at + 4, 4)
            &&& value.closure_reserve_ns == le(bytes, at + 8, 8)
        }),
{
    numbers_fit(bytes);
}

/// A resolve request is read from 16 bytes in order.
pub proof fn resolve_request_is_read_in_order(bytes: Seq<u8>, at: int)
    requires
        0 <= at,
        at + 16 <= bytes.len(),
    ensures
        ({
            let value = resolve_request_in(bytes, at);
            &&& value.outcome == le(bytes, at, 4)
            &&& value.reserved0 == le(bytes, at + 4, 4)
            &&& value.detail == le(bytes, at + 8, 8)
        }),
{
    numbers_fit(bytes);
}

/// A log append request is read from 32 bytes in order.
pub proof fn log_append_request_is_read_in_order(bytes: Seq<u8>, at: int)
    requires
        0 <= at,
        at + 32 <= bytes.len(),
    ensures
        ({
            let value = log_append_request_in(bytes, at);
            &&& value.kind == le(bytes, at, 4)
            &&& value.reserved0 == le(bytes, at + 4, 4)
            &&& value.claimed_origin_domain_id == le(bytes, at + 8, 8)
            &&& value.a == le(bytes, at + 16, 8)
            &&& value.b == le(bytes, at + 24, 8)
        }),
{
    numbers_fit(bytes);
}

/// A device map request is read from 24 bytes in order.
pub proof fn device_map_request_is_read_in_order(bytes: Seq<u8>, at: int)
    requires
        0 <= at,
        at + 24 <= bytes.len(),
    ensures
        ({
            let value = device_map_request_in(bytes, at);
            &&& value.session == le(bytes, at, 4)
            &&& value.region_index == le(bytes, at + 4, 4)
            &&& value.domain_handle == le(bytes, at + 8, 8)
            &&& value.vaddr == le(bytes, at + 16, 8)
        }),
{
    numbers_fit(bytes);
}

/// A device irq request is read from 24 bytes in order.
pub proof fn device_irq_request_is_read_in_order(bytes: Seq<u8>, at: int)
    requires
        0 <= at,
        at + 24 <= bytes.len(),
    ensures
        ({
            let value = device_irq_request_in(bytes, at);
            &&& value.session == le(bytes, at, 4)
            &&& value.vector_index == le(bytes, at + 4, 4)
            &&& value.signal_handle == le(bytes, at + 8, 8)
            &&& value.bits == le(bytes, at + 16, 8)
        }),
{
    numbers_fit(bytes);
}

/// A dma map request is read from 32 bytes in order.
pub proof fn dma_map_request_is_read_in_order(bytes: Seq<u8>, at: int)
    requires
        0 <= at,
        at + 32 <= bytes.len(),
    ensures
        ({
            let value = dma_map_request_in(bytes, at);
            &&& value.session == le(bytes, at, 4)
            &&& value.reserved0 == le(bytes, at + 4, 4)
            &&& value.memory_handle == le(bytes, at + 8, 8)
            &&& value.offset_pages == le(bytes, at + 16, 4)
            &&& value.page_count == le(bytes, at + 20, 4)
            &&& value.rights == le(bytes, at + 24, 4)
            &&& value.required_profile == le(bytes, at + 28, 4)
        }),
{
    numbers_fit(bytes);
}

/// A dma unmap request is read from 16 bytes in order.
pub proof fn dma_unmap_request_is_read_in_order(bytes: Seq<u8>, at: int)
    requires
        0 <= at,
        at + 16 <= bytes.len(),
    ensures
        ({
            let value = dma_unmap_request_in(bytes, at);
            &&& value.session == le(bytes, at, 4)
            &&& value.reserved0 == le(bytes, at + 4, 4)
            &&& value.iova == le(bytes, at + 8, 8)
        }),
{
    numbers_fit(bytes);
}

/// A cap info is written as 64 bytes in order.
pub proof fn cap_info_is_written_in_order(value: CapInfo)
    ensures
        ({
            let s = cap_info_bytes(value);
            &&& s.len() == 64
            &&& le(s, 0, 4) == value.object_type
            &&& le(s, 4, 4) == value.rights
            &&& le(s, 8, 4) == value.derive_depth
            &&& le(s, 12, 4) == value.lineage_state
            &&& le(s, 16, 8) == value.grant_id
            &&& le(s, 24, 8) == value.parent_grant_id
            &&& le(s, 32, 8) == value.deadline_ns
            &&& le(s, 40, 8) == value.life_scope_id
            &&& le(s, 48, 8) == value.object_id
            &&& le(s, 56, 8) == value.facet
        }),
{
    widths_are_kept();
    let s = cap_info_bytes(value);
    word_reads_back(s, 0, value.object_type as nat);
    word_reads_back(s, 4, value.rights as nat);
    word_reads_back(s, 8, value.derive_depth as nat);
    word_reads_back(s, 12, value.lineage_state as nat);
    double_word_reads_back(s, 16, value.grant_id as nat);
    double_word_reads_back(s, 24, value.parent_grant_id as nat);
    double_word_reads_back(s, 32, value.deadline_ns as nat);
    double_word_reads_back(s, 40, value.life_scope_id as nat);
    double_word_reads_back(s, 48, value.object_id as nat);
    double_word_reads_back(s, 56, value.facet as nat);
}

/// A drain report is written as 56 bytes in order.
pub proof fn drain_report_is_written_in_order(value: DrainReport)
    ensures
        ({
            let s = drain_report_bytes(value);
            &&& s.len() == 56
            &&& le(s, 0, 4) == value.state
            &&& le(s, 4, 4) == value.threads_running
            &&& le(s, 8, 4) == value.invocations_pending
            &&& le(s, 12, 4) == value.effects_pending
            &&& le(s, 16, 4) == value.maps_pending
            &&& le(s, 20, 4) == value.undelivered_cancelled
            &&& le(s, 24, 8) == value.retained_pages
            &&& le(s, 32, 8) == value.retained_metadata
            &&& le(s, 40, 8) == value.last_progress_ns
            &&& le(s, 48, 8) == value.token
        }),
{
    widths_are_kept();
    let s = drain_report_bytes(value);
    word_reads_back(s, 0, value.state as nat);
    word_reads_back(s, 4, value.threads_running as nat);
    word_reads_back(s, 8, value.invocations_pending as nat);
    word_reads_back(s, 12, value.effects_pending as nat);
    word_reads_back(s, 16, value.maps_pending as nat);
    word_reads_back(s, 20, value.undelivered_cancelled as nat);
    double_word_reads_back(s, 24, value.retained_pages as nat);
    double_word_reads_back(s, 32, value.retained_metadata as nat);
    double_word_reads_back(s, 40, value.last_progress_ns as nat);
    double_word_reads_back(s, 48, value.token as nat);
}

/// A scope limits is written as 48 bytes in order.
pub proof fn scope_limits_is_written_in_order(value: ScopeLimits)
    ensures
        ({
            let s = scope_limits_bytes(value);
            &&& s.len() == 48
            &&& le(s, 0, 8) == value.memory_pages
            &&& le(s, 8, 8) == value.metadata_objects
            &&& le(s, 16, 8) == value.cpu_budget_ns
            &&& le(s, 24, 8) == value.queue_bytes
            &&& le(s, 32, 8) == value.closure_reserve_ns
            &&& le(s, 40, 4) == value.parallelism
            &&& le(s, 44, 4) == value.reserved0
        }),
{
    widths_are_kept();
    let s = scope_limits_bytes(value);
    double_word_reads_back(s, 0, value.memory_pages as nat);
    double_word_reads_back(s, 8, value.metadata_objects as nat);
    double_word_reads_back(s, 16, value.cpu_budget_ns as nat);
    double_word_reads_back(s, 24, value.queue_bytes as nat);
    double_word_reads_back(s, 32, value.closure_reserve_ns as nat);
    word_reads_back(s, 40, value.parallelism as nat);
    word_reads_back(s, 44, value.reserved0 as nat);
}

/// A domain info is written as 72 bytes in order.
pub proof fn domain_info_is_written_in_order(value: DomainInfo)
    ensures
        ({
            let s = domain_info_bytes(value);
            &&& s.len() == 72
            &&& le(s, 0, 4) == value.state
            &&& le(s, 4, 4) == value.threads
            &&& le(s, 8, 4) == value.faults
            &&& le(s, 12, 4) == value.space_cpu_mask
            &&& le(s, 16, 8) == value.domain_id
            &&& le(s, 24, 8) == value.owner_scope_id
            &&& le(s, 32, 8) == value.exit_code
            &&& le(s, 40, 8) == value.fault_vector
            &&& le(s, 48, 8) == value.fault_rip
            &&& le(s, 56, 8) == value.charged_pages
            &&& le(s, 64, 8) == value.entry_point
        }),
{
    widths_are_kept();
    let s = domain_info_bytes(value);
    word_reads_back(s, 0, value.state as nat);
    word_reads_back(s, 4, value.threads as nat);
    word_reads_back(s, 8, value.faults as nat);
    word_reads_back(s, 12, value.space_cpu_mask as nat);
    double_word_reads_back(s, 16, value.domain_id as nat);
    double_word_reads_back(s, 24, value.owner_scope_id as nat);
    double_word_reads_back(s, 32, value.exit_code as nat);
    double_word_reads_back(s, 40, value.fault_vector as nat);
    double_word_reads_back(s, 48, value.fault_rip as nat);
    double_word_reads_back(s, 56, value.charged_pages as nat);
    double_word_reads_back(s, 64, value.entry_point as nat);
}

/// A memory info is written as 56 bytes in order.
pub proof fn memory_info_is_written_in_order(value: MemoryInfo)
    ensures
        ({
            let s = memory_info_bytes(value);
            &&& s.len() == 56
            &&& le(s, 0, 4) == value.state
            &&& le(s, 4, 4) == value.max_rights
            &&& le(s, 8, 4) == value.map_count
            &&& le(s, 12, 4) == value.writable_maps
            &&& le(s, 16, 8) == value.pages
            &&& le(s, 24, 8) == value.object_id
            &&& le(s, 32, 8) == value.sponsor_scope_id
            &&& forall|i: int| 0 <= i < 16 ==> #[trigger] s[40 + i] == value.label@[i]
        }),
{
    widths_are_kept();
    let s = memory_info_bytes(value);
    word_reads_back(s, 0, value.state as nat);
    word_reads_back(s, 4, value.max_rights as nat);
    word_reads_back(s, 8, value.map_count as nat);
    word_reads_back(s, 12, value.writable_maps as nat);
    double_word_reads_back(s, 16, value.pages as nat);
    double_word_reads_back(s, 24, value.object_id as nat);
    double_word_reads_back(s, 32, value.sponsor_scope_id as nat);
}

/// A endpoint info is written as 48 bytes in order.
pub proof fn endpoint_info_is_written_in_order(value: EndpointInfo)
    ensures
        ({
            let s = endpoint_info_bytes(value);
            &&& s.len() == 48
            &&& le(s, 0, 4) == value.queue_capacity
            &&& le(s, 4, 4) == value.queued
            &&& le(s, 8, 4) == value.reserved_cells
            &&& le(s, 12, 4) == value.facets
            &&& le(s, 16, 8) == value.epoch
            &&& le(s, 24, 8) == value.object_id
            &&& le(s, 32, 8) == value.admitted
            &&& le(s, 40, 8) == value.delivered
        }),
{
    widths_are_kept();
    let s = endpoint_info_bytes(value);
    word_reads_back(s, 0, value.queue_capacity as nat);
    word_reads_back(s, 4, value.queued as nat);
    word_reads_back(s, 8, value.reserved_cells as nat);
    word_reads_back(s, 12, value.facets as nat);
    double_word_reads_back(s, 16, value.epoch as nat);
    double_word_reads_back(s, 24, value.object_id as nat);
    double_word_reads_back(s, 32, value.admitted as nat);
    double_word_reads_back(s, 40, value.delivered as nat);
}

/// A invocation info is written as 64 bytes in order.
pub proof fn invocation_info_is_written_in_order(value: InvocationInfo)
    ensures
        ({
            let s = invocation_info_bytes(value);
            &&& s.len() == 64
            &&& le(s, 0, 4) == value.state
            &&& le(s, 4, 4) == value.cancel_state
            &&& le(s, 8, 4) == value.effect_state
            &&& le(s, 16, 8) == value.invocation_id
            &&& le(s, 24, 8) == value.origin_domain_id
            &&& le(s, 32, 8) == value.origin_scope_id
            &&& le(s, 40, 8) == value.facet
            &&& le(s, 48, 8) == value.grant_id
            &&& le(s, 56, 8) == value.admitted_ns
        }),
{
    widths_are_kept();
    let s = invocation_info_bytes(value);
    word_reads_back(s, 0, value.state as nat);
    word_reads_back(s, 4, value.cancel_state as nat);
    word_reads_back(s, 8, value.effect_state as nat);
    double_word_reads_back(s, 16, value.invocation_id as nat);
    double_word_reads_back(s, 24, value.origin_domain_id as nat);
    double_word_reads_back(s, 32, value.origin_scope_id as nat);
    double_word_reads_back(s, 40, value.facet as nat);
    double_word_reads_back(s, 48, value.grant_id as nat);
    double_word_reads_back(s, 56, value.admitted_ns as nat);
}

/// A signal info is written as 32 bytes in order.
pub proof fn signal_info_is_written_in_order(value: SignalInfo)
    ensures
        ({
            let s = signal_info_bytes(value);
            &&& s.len() == 32
            &&& le(s, 0, 8) == value.bits
            &&& le(s, 8, 8) == value.sequence
            &&& le(s, 16, 8) == value.object_id
            &&& le(s, 24, 4) == value.waiters
        }),
{
    widths_are_kept();
    let s = signal_info_bytes(value);
    double_word_reads_back(s, 0, value.bits as nat);
    double_word_reads_back(s, 8, value.sequence as nat);
    double_word_reads_back(s, 16, value.object_id as nat);
    word_reads_back(s, 24, value.waiters as nat);
}

/// A timer info is written as 32 bytes in order.
pub proof fn timer_info_is_written_in_order(value: TimerInfo)
    ensures
        ({
            let s = timer_info_bytes(value);
            &&& s.len() == 32
            &&& le(s, 0, 4) == value.armed
            &&& le(s, 8, 8) == value.deadline_ns
            &&& le(s, 16, 8) == value.fired
            &&& le(s, 24, 8) == value.object_id
        }),
{
    widths_are_kept();
    let s = timer_info_bytes(value);
    word_reads_back(s, 0, value.armed as nat);
    double_word_reads_back(s, 8, value.deadline_ns as nat);
    double_word_reads_back(s, 16, value.fired as nat);
    double_word_reads_back(s, 24, value.object_id as nat);
}

/// A log info is written as 40 bytes in order.
pub proof fn log_info_is_written_in_order(value: LogInfo)
    ensures
        ({
            let s = log_info_bytes(value);
            &&& s.len() == 40
            &&& le(s, 0, 4) == value.capacity
            &&& le(s, 4, 4) == value.reserved_cells
            &&& le(s, 8, 4) == value.used
            &&& le(s, 12, 4) == value.lost
            &&& le(s, 16, 8) == value.next_sequence
            &&& le(s, 24, 8) == value.oldest_sequence
            &&& le(s, 32, 8) == value.object_id
        }),
{
    widths_are_kept();
    let s = log_info_bytes(value);
    word_reads_back(s, 0, value.capacity as nat);
    word_reads_back(s, 4, value.reserved_cells as nat);
    word_reads_back(s, 8, value.used as nat);
    word_reads_back(s, 12, value.lost as nat);
    double_word_reads_back(s, 16, value.next_sequence as nat);
    double_word_reads_back(s, 24, value.oldest_sequence as nat);
    double_word_reads_back(s, 32, value.object_id as nat);
}

/// A device region is written as 32 bytes in order.
pub proof fn device_region_is_written_in_order(value: DeviceRegion)
    ensures
        ({
            let s = device_region_bytes(value);
            &&& s.len() == 32
            &&& le(s, 0, 4) == value.kind
            &&& le(s, 4, 4) == value.bar
            &&& le(s, 8, 8) == value.offset
            &&& le(s, 16, 8) == value.length
            &&& le(s, 24, 4) == value.flags
            &&& le(s, 28, 4) == value.notify_off_multiplier
        }),
{
    widths_are_kept();
    let s = device_region_bytes(value);
    word_reads_back(s, 0, value.kind as nat);
    word_reads_back(s, 4, value.bar as nat);
    double_word_reads_back(s, 8, value.offset as nat);
    double_word_reads_back(s, 16, value.length as nat);
    word_reads_back(s, 24, value.flags as nat);
    word_reads_back(s, 28, value.notify_off_multiplier as nat);
}

/// A dma grant info is written as 40 bytes in order.
pub proof fn dma_grant_info_is_written_in_order(value: DmaGrantInfo)
    ensures
        ({
            let s = dma_grant_info_bytes(value);
            &&& s.len() == 40
            &&& le(s, 0, 8) == value.iova
            &&& le(s, 8, 8) == value.length
            &&& le(s, 16, 4) == value.rights
            &&& le(s, 20, 4) == value.profile
            &&& le(s, 24, 4) == value.session
            &&& le(s, 28, 4) == value.grant_index
            &&& le(s, 32, 8) == value.memory_object_id
        }),
{
    widths_are_kept();
    let s = dma_grant_info_bytes(value);
    double_word_reads_back(s, 0, value.iova as nat);
    double_word_reads_back(s, 8, value.length as nat);
    word_reads_back(s, 16, value.rights as nat);
    word_reads_back(s, 20, value.profile as nat);
    word_reads_back(s, 24, value.session as nat);
    word_reads_back(s, 28, value.grant_index as nat);
    double_word_reads_back(s, 32, value.memory_object_id as nat);
}

/// A message header is written as 80 bytes in order.
pub proof fn message_header_is_written_in_order(value: MessageHeader)
    ensures
        ({
            let s = message_header_bytes(value);
            &&& s.len() == 80
            &&& le(s, 0, 8) == value.epoch
            &&& le(s, 8, 8) == value.invocation_id
            &&& le(s, 16, 8) == value.sender_domain_id
            &&& le(s, 24, 8) == value.sender_scope_id
            &&& le(s, 32, 8) == value.parent_invocation_id
            &&& le(s, 40, 8) == value.facet
            &&& le(s, 48, 8) == value.grant_id
            &&& le(s, 56, 8) == value.sent_ns
            &&& le(s, 64, 4) == value.rights_transferred
            &&& le(s, 68, 4) == value.cancel_state
            &&& le(s, 72, 4) == value.kind
            &&& le(s, 76, 4) == value.payload_len
        }),
{
    widths_are_kept();
    let s = message_header_bytes(value);
    double_word_reads_back(s, 0, value.epoch as nat);
    double_word_reads_back(s, 8, value.invocation_id as nat);
    double_word_reads_back(s, 16, value.sender_domain_id as nat);
    double_word_reads_back(s, 24, value.sender_scope_id as nat);
    double_word_reads_back(s, 32, value.parent_invocation_id as nat);
    double_word_reads_back(s, 40, value.facet as nat);
    double_word_reads_back(s, 48, value.grant_id as nat);
    double_word_reads_back(s, 56, value.sent_ns as nat);
    word_reads_back(s, 64, value.rights_transferred as nat);
    word_reads_back(s, 68, value.cancel_state as nat);
    word_reads_back(s, 72, value.kind as nat);
    word_reads_back(s, 76, value.payload_len as nat);
}

/// A receipt record is written as 96 bytes in order.
pub proof fn receipt_is_written_in_order(value: ReceiptRecord)
    ensures
        ({
            let s = receipt_bytes(value);
            &&& s.len() == 96
            &&& le(s, 0, 4) == value.schema
            &&& le(s, 4, 4) == value.kind
            &&& le(s, 8, 8) == value.sequence
            &&& le(s, 16, 8) == value.epoch
            &&& le(s, 24, 8) == value.ns
            &&& le(s, 32, 8) == value.origin_domain_id
            &&& le(s, 40, 8) == value.origin_scope_id
            &&& le(s, 48, 8) == value.object_id
            &&& le(s, 56, 8) == value.grant_id
            &&& le(s, 64, 8) == value.parent_invocation_id
            &&& value.result >= 0 ==> le(s, 72, 8) == value.result
            &&& value.result < 0 ==> le(s, 72, 8) == 0x1_0000_0000_0000_0000 + value.result
            &&& le(s, 80, 8) == value.a
            &&& le(s, 88, 8) == value.b
        }),
{
    widths_are_kept();
    let s = receipt_bytes(value);
    word_reads_back(s, 0, value.schema as nat);
    word_reads_back(s, 4, value.kind as nat);
    double_word_reads_back(s, 8, value.sequence as nat);
    double_word_reads_back(s, 16, value.epoch as nat);
    double_word_reads_back(s, 24, value.ns as nat);
    double_word_reads_back(s, 32, value.origin_domain_id as nat);
    double_word_reads_back(s, 40, value.origin_scope_id as nat);
    double_word_reads_back(s, 48, value.object_id as nat);
    double_word_reads_back(s, 56, value.grant_id as nat);
    double_word_reads_back(s, 64, value.parent_invocation_id as nat);
    double_word_reads_back(s, 72, bits_of(value.result));
    double_word_reads_back(s, 80, value.a as nat);
    double_word_reads_back(s, 88, value.b as nat);
}

proof fn handles_keep_their_order(run: Seq<u64>)
    requires
        run.len() == 4,
    ensures
        crate::abi::wire::handles_bytes(run) == le_bytes(run[0] as nat, 8) + le_bytes(
            run[1] as nat,
            8,
        ) + le_bytes(run[2] as nat, 8) + le_bytes(run[3] as nat, 8),
{
    reveal_with_fuel(crate::abi::wire::handles_bytes, 5);
    let three = run.drop_last();
    let two = three.drop_last();
    let one = two.drop_last();
    assert(one.drop_last().len() == 0);
    assert(three.last() == run[2] && two.last() == run[1] && one.last() == run[0]);
    widths_are_kept();
    assert(crate::abi::wire::handles_bytes(one) =~= le_bytes(run[0] as nat, 8));
}

/// A call result is written as 312 bytes in order.
pub proof fn call_result_is_written_in_order(value: crate::abi::request::CallResult)
    ensures
        ({
            let s = crate::abi::wire::call_result_bytes(value);
            &&& s.len() == 312
            &&& le(s, 0, 4) == value.payload_len
            &&& le(s, 4, 4) == value.cap_count
            &&& forall|i: int|
                0 <= i < MAX_MESSAGE_CAPS ==> le(s, 8 + 8 * i, 8) == #[trigger] value.caps@[i]
            &&& le(s, 40, 8) == value.result
            &&& le(s, 48, 8) == value.invocation_id
            &&& forall|i: int|
                0 <= i < MAX_INLINE_PAYLOAD ==> s[56 + i] == #[trigger] value.payload@[i]
        }),
{
    widths_are_kept();
    handles_keep_their_order(value.caps@);
    let s = crate::abi::wire::call_result_bytes(value);
    word_reads_back(s, 0, value.payload_len as nat);
    word_reads_back(s, 4, value.cap_count as nat);
    double_word_reads_back(s, 8, value.caps@[0] as nat);
    double_word_reads_back(s, 16, value.caps@[1] as nat);
    double_word_reads_back(s, 24, value.caps@[2] as nat);
    double_word_reads_back(s, 32, value.caps@[3] as nat);
    double_word_reads_back(s, 40, value.result as nat);
    double_word_reads_back(s, 48, value.invocation_id as nat);
    assert forall|i: int| 0 <= i < MAX_MESSAGE_CAPS implies le(s, 8 + 8 * i, 8)
        == #[trigger] value.caps@[i] by {
        assert(i == 0 || i == 1 || i == 2 || i == 3);
    }
}

/// A receive result is written as 376 bytes in order: the header of the message, how
/// many capabilities came with it, a clear word, their handles, and the payload.
pub proof fn receive_result_is_written_in_order(value: crate::abi::request::ReceiveResult)
    ensures
        ({
            let s = crate::abi::wire::receive_result_bytes(value);
            &&& s.len() == 376
            &&& s.take(80) == message_header_bytes(value.header)
            &&& le(s, 80, 4) == value.cap_count
            &&& le(s, 84, 4) == 0
            &&& forall|i: int|
                0 <= i < MAX_MESSAGE_CAPS ==> le(s, 88 + 8 * i, 8) == #[trigger] value.caps@[i]
            &&& forall|i: int|
                0 <= i < MAX_INLINE_PAYLOAD ==> s[120 + i] == #[trigger] value.payload@[i]
        }),
{
    widths_are_kept();
    handles_keep_their_order(value.caps@);
    message_header_is_written_in_order(value.header);
    let s = crate::abi::wire::receive_result_bytes(value);
    assert(s.take(80) =~= message_header_bytes(value.header));
    word_reads_back(s, 80, value.cap_count as nat);
    word_reads_back(s, 84, 0);
    double_word_reads_back(s, 88, value.caps@[0] as nat);
    double_word_reads_back(s, 96, value.caps@[1] as nat);
    double_word_reads_back(s, 104, value.caps@[2] as nat);
    double_word_reads_back(s, 112, value.caps@[3] as nat);
    assert forall|i: int| 0 <= i < MAX_MESSAGE_CAPS implies le(s, 88 + 8 * i, 8)
        == #[trigger] value.caps@[i] by {
        assert(i == 0 || i == 1 || i == 2 || i == 3);
    }
}

} // verus!
