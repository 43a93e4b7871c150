//! The operations of the interface: what each needs, and where its bit stands.

use vstd::prelude::*;

use crate::abi::op_type;
use crate::abi::{op, right};

verus! {

/// What the dispatch knows about one operation.
#[derive(Clone, Copy, Debug)]
pub struct OpSpec {
    /// Operation code.
    pub code: u32,
    /// Name, for diagnostic records.
    pub name: &'static str,
    /// Type the handle must name, or zero for any.
    pub object_type: u32,
    /// Rights the handle must carry.
    pub rights: u32,
    /// Bytes of the descriptor, header counted; zero for an operation that has
    /// none.
    pub descriptor_len: u32,
    /// Whether the descriptor carries an answer back.
    pub writes_response: bool,
    /// Position among all operations.
    pub position: u32,
}

/// Operations of a group.
pub open spec fn group_size(group: int) -> int {
    if group == 0 {
        6
    } else if group == 1 {
        11
    } else if group == 2 {
        8
    } else if group == 3 || group == 4 {
        5
    } else if group == 5 {
        6
    } else if group == 6 || group == 7 {
        3
    } else if group == 8 {
        4
    } else if group == 9 {
        8
    } else {
        0
    }
}

/// Operations of the groups below one.
pub open spec fn groups_below(group: int) -> int
    decreases group,
{
    if group <= 0 {
        0
    } else {
        groups_below(group - 1) + group_size(group - 1)
    }
}

/// A code is assigned: its ordinal counts from one to the size of its group.
pub open spec fn is_assigned(code: u32) -> bool {
    1 <= code % 0x1_0000 <= group_size(code as int / 0x1_0000)
}

/// Position of an assigned code among all operations.
pub open spec fn position_of(code: u32) -> int {
    groups_below(code as int / 0x1_0000) + code % 0x1_0000 - 1
}

/// Rights an operation needs.
pub open spec fn rights_of(code: u32) -> u32 {
    match code {
        op::CAP_INSPECT
        | op::CAP_DRAIN_STATUS
        | op::SCOPE_QUERY
        | op::SCOPE_DRAIN_STATUS
        | op::DOMAIN_QUERY
        | op::MEMORY_QUERY
        | op::ENDPOINT_QUERY
        | op::INVOCATION_QUERY
        | op::SIGNAL_QUERY
        | op::TIMER_QUERY
        | op::LOG_QUERY
        | op::DEVICE_QUERY => right::INSPECT,
        op::CAP_DERIVE
        | op::CAP_COPY => right::DERIVE,
        op::CAP_FENCE => right::DESTROY,
        op::SCOPE_CREATE_CHILD
        | op::SCOPE_CREATE_DOMAIN
        | op::SCOPE_CREATE_MEMORY
        | op::SCOPE_CREATE_ENDPOINT
        | op::SCOPE_CREATE_SIGNAL
        | op::SCOPE_CREATE_TIMER => right::SCOPE_CREATE,
        op::SCOPE_SET_LIMITS => right::SCOPE_LIMIT,
        op::SCOPE_FENCE
        | op::SCOPE_RETIRE => right::SCOPE_CLOSE,
        op::DOMAIN_MAP
        | op::DOMAIN_UNMAP
        | op::DOMAIN_INSTALL_CAP
        | op::DOMAIN_ADD_THREAD
        | op::DOMAIN_SET_FAULT_CHANNEL => right::DOMAIN_BUILD,
        op::DOMAIN_ACTIVATE
        | op::DOMAIN_TERMINATE => right::DOMAIN_CONTROL,
        op::MEMORY_SEAL => right::MEMORY_SEAL,
        op::MEMORY_COPY
        | op::MEMORY_WRITE => right::MEMORY_WRITE,
        op::MEMORY_READ => right::MEMORY_READ,
        op::ENDPOINT_BIND_FACET => right::ENDPOINT_BIND,
        op::ENDPOINT_SEND
        | op::ENDPOINT_CALL => right::ENDPOINT_SEND,
        op::ENDPOINT_RECEIVE => right::ENDPOINT_RECEIVE,
        op::INVOCATION_REPLY => right::INVOCATION_REPLY,
        op::INVOCATION_BEGIN_EFFECT => right::INVOCATION_EFFECT,
        op::INVOCATION_RESOLVE => right::INVOCATION_RESOLVE,
        op::INVOCATION_BIND_WORKER
        | op::INVOCATION_UNBIND_WORKER => right::INVOCATION_BIND,
        op::SIGNAL_RAISE => right::SIGNAL_RAISE,
        op::SIGNAL_WAIT => right::SIGNAL_WAIT,
        op::TIMER_ARM
        | op::TIMER_CANCEL => right::TIMER_ARM,
        op::LOG_READ
        | op::LOG_ACK => right::LOG_READ,
        op::LOG_APPEND => right::LOG_APPEND,
        op::DEVICE_MAP_REGION
        | op::DEVICE_UNMAP_REGION => right::DEVICE_MAP,
        op::DEVICE_BIND_IRQ => right::DEVICE_IRQ,
        op::DEVICE_SET_MASTER
        | op::DEVICE_RESET => right::DEVICE_CONTROL,
        op::DEVICE_DMA_MAP
        | op::DEVICE_DMA_UNMAP => right::DEVICE_DMA,
        _ => 0,
    }
}

/// Bytes of the descriptor of an operation.
pub open spec fn descriptor_of(code: u32) -> u32 {
    match code {
        op::CAP_INSPECT
        | op::SCOPE_CREATE_CHILD
        | op::INVOCATION_QUERY => 96,
        op::CAP_DERIVE
        | op::SCOPE_CREATE_DOMAIN
        | op::SCOPE_CREATE_ENDPOINT
        | op::DOMAIN_INSTALL_CAP
        | op::ENDPOINT_BIND_FACET
        | op::DEVICE_MAP_REGION
        | op::DEVICE_UNMAP_REGION
        | op::DEVICE_BIND_IRQ => 56,
        op::CAP_DRAIN_STATUS
        | op::SCOPE_DRAIN_STATUS
        | op::SCOPE_RETIRE
        | op::MEMORY_QUERY
        | op::MEMORY_SEAL => 88,
        op::SCOPE_QUERY => 176,
        op::SCOPE_SET_LIMITS
        | op::ENDPOINT_QUERY => 80,
        op::SCOPE_CREATE_MEMORY
        | op::DOMAIN_MAP
        | op::DOMAIN_ADD_THREAD
        | op::MEMORY_COPY
        | op::SIGNAL_WAIT
        | op::SIGNAL_QUERY
        | op::TIMER_QUERY
        | op::LOG_APPEND => 64,
        op::SCOPE_CREATE_TIMER
        | op::DOMAIN_UNMAP
        | op::DOMAIN_SET_FAULT_CHANNEL
        | op::INVOCATION_BEGIN_EFFECT
        | op::INVOCATION_RESOLVE
        | op::DEVICE_DMA_UNMAP => 48,
        op::DOMAIN_QUERY => 104,
        op::MEMORY_WRITE
        | op::MEMORY_READ => 304,
        op::ENDPOINT_SEND
        | op::ENDPOINT_CALL => 344,
        op::ENDPOINT_RECEIVE => 408,
        op::INVOCATION_REPLY => 352,
        op::SIGNAL_RAISE
        | op::TIMER_ARM
        | op::LOG_ACK
        | op::DEVICE_SET_MASTER => 40,
        op::LOG_READ => 456,
        op::LOG_QUERY
        | op::DEVICE_DMA_MAP => 72,
        op::DEVICE_QUERY
        | op::DEVICE_RESET => 328,
        _ => 0,
    }
}

/// The descriptor of an operation carries an answer back.
pub open spec fn answers(code: u32) -> bool {
    match code {
        op::CAP_INSPECT
        | op::CAP_DRAIN_STATUS
        | op::SCOPE_QUERY
        | op::SCOPE_DRAIN_STATUS
        | op::SCOPE_RETIRE
        | op::DOMAIN_QUERY
        | op::MEMORY_QUERY
        | op::MEMORY_SEAL
        | op::MEMORY_READ
        | op::ENDPOINT_CALL
        | op::ENDPOINT_RECEIVE
        | op::ENDPOINT_QUERY
        | op::INVOCATION_QUERY
        | op::SIGNAL_WAIT
        | op::SIGNAL_QUERY
        | op::TIMER_QUERY
        | op::LOG_READ
        | op::LOG_QUERY
        | op::DEVICE_QUERY
        | op::DEVICE_DMA_MAP
        | op::DEVICE_RESET => true,
        _ => false,
    }
}

/// Name of an operation.
pub open spec fn name_of(code: u32) -> Seq<char> {
    match code {
        op::CAP_INSPECT => "cap_inspect"@,
        op::CAP_DERIVE => "cap_derive"@,
        op::CAP_COPY => "cap_copy"@,
        op::CAP_CLOSE => "cap_close"@,
        op::CAP_FENCE => "cap_fence"@,
        op::CAP_DRAIN_STATUS => "cap_drain_status"@,
        op::SCOPE_CREATE_CHILD => "scope_create_child"@,
        op::SCOPE_QUERY => "scope_query"@,
        op::SCOPE_SET_LIMITS => "scope_set_limits"@,
        op::SCOPE_FENCE => "scope_fence"@,
        op::SCOPE_DRAIN_STATUS => "scope_drain_status"@,
        op::SCOPE_RETIRE => "scope_retire"@,
        op::SCOPE_CREATE_DOMAIN => "scope_create_domain"@,
        op::SCOPE_CREATE_MEMORY => "scope_create_memory"@,
        op::SCOPE_CREATE_ENDPOINT => "scope_create_endpoint"@,
        op::SCOPE_CREATE_SIGNAL => "scope_create_signal"@,
        op::SCOPE_CREATE_TIMER => "scope_create_timer"@,
        op::DOMAIN_MAP => "domain_map"@,
        op::DOMAIN_UNMAP => "domain_unmap"@,
        op::DOMAIN_INSTALL_CAP => "domain_install_cap"@,
        op::DOMAIN_ADD_THREAD => "domain_add_thread"@,
        op::DOMAIN_SET_FAULT_CHANNEL => "domain_set_fault_channel"@,
        op::DOMAIN_ACTIVATE => "domain_activate"@,
        op::DOMAIN_TERMINATE => "domain_terminate"@,
        op::DOMAIN_QUERY => "domain_query"@,
        op::MEMORY_QUERY => "memory_query"@,
        op::MEMORY_SEAL => "memory_seal"@,
        op::MEMORY_COPY => "memory_copy"@,
        op::MEMORY_WRITE => "memory_write"@,
        op::MEMORY_READ => "memory_read"@,
        op::ENDPOINT_BIND_FACET => "endpoint_bind_facet"@,
        op::ENDPOINT_SEND => "endpoint_send"@,
        op::ENDPOINT_CALL => "endpoint_call"@,
        op::ENDPOINT_RECEIVE => "endpoint_receive"@,
        op::ENDPOINT_QUERY => "endpoint_query"@,
        op::INVOCATION_REPLY => "invocation_reply"@,
        op::INVOCATION_BEGIN_EFFECT => "invocation_begin_effect"@,
        op::INVOCATION_RESOLVE => "invocation_resolve"@,
        op::INVOCATION_QUERY => "invocation_query"@,
        op::INVOCATION_BIND_WORKER => "invocation_bind_worker"@,
        op::INVOCATION_UNBIND_WORKER => "invocation_unbind_worker"@,
        op::SIGNAL_RAISE => "signal_raise"@,
        op::SIGNAL_WAIT => "signal_wait"@,
        op::SIGNAL_QUERY => "signal_query"@,
        op::TIMER_ARM => "timer_arm"@,
        op::TIMER_CANCEL => "timer_cancel"@,
        op::TIMER_QUERY => "timer_query"@,
        op::LOG_READ => "log_read"@,
        op::LOG_APPEND => "log_append"@,
        op::LOG_ACK => "log_ack"@,
        op::LOG_QUERY => "log_query"@,
        op::DEVICE_QUERY => "device_query"@,
        op::DEVICE_MAP_REGION => "device_map_region"@,
        op::DEVICE_UNMAP_REGION => "device_unmap_region"@,
        op::DEVICE_BIND_IRQ => "device_bind_irq"@,
        op::DEVICE_SET_MASTER => "device_set_master"@,
        op::DEVICE_DMA_MAP => "device_dma_map"@,
        op::DEVICE_DMA_UNMAP => "device_dma_unmap"@,
        op::DEVICE_RESET => "device_reset"@,
        _ => "unassigned"@,
    }
}

/// The row of an operation.
pub open spec fn is_row(row: OpSpec, code: u32) -> bool {
    &&& row.code == code
    &&& row.name@ == name_of(code)
    &&& row.object_type == code / 0x1_0000
    &&& row.rights == rights_of(code)
    &&& row.descriptor_len == descriptor_of(code)
    &&& row.writes_response == answers(code)
    &&& row.position == position_of(code)
}

fn row(
    code: u32,
    name: &'static str,
    rights: u32,
    descriptor_len: u32,
    writes_response: bool,
    position: u32,
) -> (row: OpSpec)
    ensures
        row.code == code,
        row.name == name,
        row.object_type == code / 0x1_0000,
        row.rights == rights,
        row.descriptor_len == descriptor_len,
        row.writes_response == writes_response,
        row.position == position,
{
    OpSpec {
        code,
        name,
        object_type: op_type(code),
        rights,
        descriptor_len,
        writes_response,
        position,
    }
}

fn cap_row(code: u32) -> (found: OpSpec)
    requires
        is_assigned(code),
        code / 0x1_0000 == 0,
    ensures
        is_row(found, code),
{
    proof {
        reveal_with_fuel(groups_below, 11);
    }
    match code {
        op::CAP_INSPECT => row(code, "cap_inspect", right::INSPECT, 96, true, 0),
        op::CAP_DERIVE => row(code, "cap_derive", right::DERIVE, 56, false, 1),
        op::CAP_COPY => row(code, "cap_copy", right::DERIVE, 0, false, 2),
        op::CAP_CLOSE => row(code, "cap_close", 0, 0, false, 3),
        op::CAP_FENCE => row(code, "cap_fence", right::DESTROY, 0, false, 4),
        _ => row(code, "cap_drain_status", right::INSPECT, 88, true, 5),
    }
}

fn scope_row(code: u32) -> (found: OpSpec)
    requires
        is_assigned(code),
        code / 0x1_0000 == 1,
    ensures
        is_row(found, code),
{
    proof {
        reveal_with_fuel(groups_below, 11);
    }
    match code {
        op::SCOPE_CREATE_CHILD => row(code, "scope_create_child", right::SCOPE_CREATE, 96, false, 6),
        op::SCOPE_QUERY => row(code, "scope_query", right::INSPECT, 176, true, 7),
        op::SCOPE_SET_LIMITS => row(code, "scope_set_limits", right::SCOPE_LIMIT, 80, false, 8),
        op::SCOPE_FENCE => row(code, "scope_fence", right::SCOPE_CLOSE, 0, false, 9),
        op::SCOPE_DRAIN_STATUS => row(code, "scope_drain_status", right::INSPECT, 88, true, 10),
        op::SCOPE_RETIRE => row(code, "scope_retire", right::SCOPE_CLOSE, 88, true, 11),
        op::SCOPE_CREATE_DOMAIN => row(code, "scope_create_domain", right::SCOPE_CREATE, 56, false, 12),
        op::SCOPE_CREATE_MEMORY => row(code, "scope_create_memory", right::SCOPE_CREATE, 64, false, 13),
        op::SCOPE_CREATE_ENDPOINT => row(code, "scope_create_endpoint", right::SCOPE_CREATE, 56, false, 14),
        op::SCOPE_CREATE_SIGNAL => row(code, "scope_create_signal", right::SCOPE_CREATE, 0, false, 15),
        _ => row(code, "scope_create_timer", right::SCOPE_CREATE, 48, false, 16),
    }
}

fn domain_row(code: u32) -> (found: OpSpec)
    requires
        is_assigned(code),
        code / 0x1_0000 == 2,
    ensures
        is_row(found, code),
{
    proof {
        reveal_with_fuel(groups_below, 11);
    }
    match code {
        op::DOMAIN_MAP => row(code, "domain_map", right::DOMAIN_BUILD, 64, false, 17),
        op::DOMAIN_UNMAP => row(code, "domain_unmap", right::DOMAIN_BUILD, 48, false, 18),
        op::DOMAIN_INSTALL_CAP => row(code, "domain_install_cap", right::DOMAIN_BUILD, 56, false, 19),
        op::DOMAIN_ADD_THREAD => row(code, "domain_add_thread", right::DOMAIN_BUILD, 64, false, 20),
        op::DOMAIN_SET_FAULT_CHANNEL => row(code, "domain_set_fault_channel", right::DOMAIN_BUILD, 48, false, 21),
        op::DOMAIN_ACTIVATE => row(code, "domain_activate", right::DOMAIN_CONTROL, 0, false, 22),
        op::DOMAIN_TERMINATE => row(code, "domain_terminate", right::DOMAIN_CONTROL, 0, false, 23),
        _ => row(code, "domain_query", right::INSPECT, 104, true, 24),
    }
}

fn memory_row(code: u32) -> (found: OpSpec)
    requires
        is_assigned(code),
        code / 0x1_0000 == 3,
    ensures
        is_row(found, code),
{
    proof {
        reveal_with_fuel(groups_below, 11);
    }
    match code {
        op::MEMORY_QUERY => row(code, "memory_query", right::INSPECT, 88, true, 25),
        op::MEMORY_SEAL => row(code, "memory_seal", right::MEMORY_SEAL, 88, true, 26),
        op::MEMORY_COPY => row(code, "memory_copy", right::MEMORY_WRITE, 64, false, 27),
        op::MEMORY_WRITE => row(code, "memory_write", right::MEMORY_WRITE, 304, false, 28),
        _ => row(code, "memory_read", right::MEMORY_READ, 304, true, 29),
    }
}

fn endpoint_row(code: u32) -> (found: OpSpec)
    requires
        is_assigned(code),
        code / 0x1_0000 == 4,
    ensures
        is_row(found, code),
{
    proof {
        reveal_with_fuel(groups_below, 11);
    }
    match code {
        op::ENDPOINT_BIND_FACET => row(code, "endpoint_bind_facet", right::ENDPOINT_BIND, 56, false, 30),
        op::ENDPOINT_SEND => row(code, "endpoint_send", right::ENDPOINT_SEND, 344, false, 31),
        op::ENDPOINT_CALL => row(code, "endpoint_call", right::ENDPOINT_SEND, 344, true, 32),
        op::ENDPOINT_RECEIVE => row(code, "endpoint_receive", right::ENDPOINT_RECEIVE, 408, true, 33),
        _ => row(code, "endpoint_query", right::INSPECT, 80, true, 34),
    }
}

fn invocation_row(code: u32) -> (found: OpSpec)
    requires
        is_assigned(code),
        code / 0x1_0000 == 5,
    ensures
        is_row(found, code),
{
    proof {
        reveal_with_fuel(groups_below, 11);
    }
    match code {
        op::INVOCATION_REPLY => row(code, "invocation_reply", right::INVOCATION_REPLY, 352, false, 35),
        op::INVOCATION_BEGIN_EFFECT => row(code, "invocation_begin_effect", right::INVOCATION_EFFECT, 48, false, 36),
        op::INVOCATION_RESOLVE => row(code, "invocation_resolve", right::INVOCATION_RESOLVE, 48, false, 37),
        op::INVOCATION_QUERY => row(code, "invocation_query", right::INSPECT, 96, true, 38),
        op::INVOCATION_BIND_WORKER => row(code, "invocation_bind_worker", right::INVOCATION_BIND, 0, false, 39),
        _ => row(code, "invocation_unbind_worker", right::INVOCATION_BIND, 0, false, 40),
    }
}

fn signal_row(code: u32) -> (found: OpSpec)
    requires
        is_assigned(code),
        code / 0x1_0000 == 6,
    ensures
        is_row(found, code),
{
    proof {
        reveal_with_fuel(groups_below, 11);
    }
    match code {
        op::SIGNAL_RAISE => row(code, "signal_raise", right::SIGNAL_RAISE, 40, false, 41),
        op::SIGNAL_WAIT => row(code, "signal_wait", right::SIGNAL_WAIT, 64, true, 42),
        _ => row(code, "signal_query", right::INSPECT, 64, true, 43),
    }
}

fn timer_row(code: u32) -> (found: OpSpec)
    requires
        is_assigned(code),
        code / 0x1_0000 == 7,
    ensures
        is_row(found, code),
{
    proof {
        reveal_with_fuel(groups_below, 11);
    }
    match code {
        op::TIMER_ARM => row(code, "timer_arm", right::TIMER_ARM, 40, false, 44),
        op::TIMER_CANCEL => row(code, "timer_cancel", right::TIMER_ARM, 0, false, 45),
        _ => row(code, "timer_query", right::INSPECT, 64, true, 46),
    }
}

fn log_row(code: u32) -> (found: OpSpec)
    requires
        is_assigned(code),
        code / 0x1_0000 == 8,
    ensures
        is_row(found, code),
{
    proof {
        reveal_with_fuel(groups_below, 11);
    }
    match code {
        op::LOG_READ => row(code, "log_read", right::LOG_READ, 456, true, 47),
        op::LOG_APPEND => row(code, "log_append", right::LOG_APPEND, 64, false, 48),
        op::LOG_ACK => row(code, "log_ack", right::LOG_READ, 40, false, 49),
        _ => row(code, "log_query", right::INSPECT, 72, true, 50),
    }
}

fn device_row(code: u32) -> (found: OpSpec)
    requires
        is_assigned(code),
        code / 0x1_0000 == 9,
    ensures
        is_row(found, code),
{
    proof {
        reveal_with_fuel(groups_below, 11);
    }
    match code {
        op::DEVICE_QUERY => row(code, "device_query", right::INSPECT, 328, true, 51),
        op::DEVICE_MAP_REGION => row(code, "device_map_region", right::DEVICE_MAP, 56, false, 52),
        op::DEVICE_UNMAP_REGION => row(code, "device_unmap_region", right::DEVICE_MAP, 56, false, 53),
        op::DEVICE_BIND_IRQ => row(code, "device_bind_irq", right::DEVICE_IRQ, 56, false, 54),
        op::DEVICE_SET_MASTER => row(code, "device_set_master", right::DEVICE_CONTROL, 40, false, 55),
        op::DEVICE_DMA_MAP => row(code, "device_dma_map", right::DEVICE_DMA, 72, true, 56),
        op::DEVICE_DMA_UNMAP => row(code, "device_dma_unmap", right::DEVICE_DMA, 48, false, 57),
        _ => row(code, "device_reset", right::DEVICE_CONTROL, 328, true, 58),
    }
}

/// What the interface says of an operation code, or `None` for one it does not
/// assign.
pub fn spec(code: u32) -> (found: Option<OpSpec>)
    ensures
        found is Some <==> is_assigned(code),
        found matches Some(row) ==> is_row(row, code),
{
    let ordinal: u32 = code % 0x1_0000;
    if ordinal == 0 {
        return None;
    }
    match code / 0x1_0000 {
        0 => if ordinal <= 6 {
            Some(cap_row(code))
        } else {
            None
        },
        1 => if ordinal <= 11 {
            Some(scope_row(code))
        } else {
            None
        },
        2 => if ordinal <= 8 {
            Some(domain_row(code))
        } else {
            None
        },
        3 => if ordinal <= 5 {
            Some(memory_row(code))
        } else {
            None
        },
        4 => if ordinal <= 5 {
            Some(endpoint_row(code))
        } else {
            None
        },
        5 => if ordinal <= 6 {
            Some(invocation_row(code))
        } else {
            None
        },
        6 => if ordinal <= 3 {
            Some(signal_row(code))
        } else {
            None
        },
        7 => if ordinal <= 3 {
            Some(timer_row(code))
        } else {
            None
        },
        8 => if ordinal <= 4 {
            Some(log_row(code))
        } else {
            None
        },
        9 => if ordinal <= 8 {
            Some(device_row(code))
        } else {
            None
        },
        _ => None,
    }
}

/// Name of an operation, for diagnostic records.
pub fn operation_name(operation: u32) -> (name: &'static str)
    ensures
        name@ == if is_assigned(operation) {
            name_of(operation)
        } else {
            "unassigned"@
        },
{
    match spec(operation) {
        Some(row) => row.name,
        None => "unassigned",
    }
}

/// Two assigned operations never share a position, and every position fits a
/// word of sixty-four bits.
pub proof fn positions_are_distinct(a: u32, b: u32)
    requires
        is_assigned(a),
        is_assigned(b),
    ensures
        0 <= position_of(a) < 59,
        position_of(a) == position_of(b) ==> a == b,
{
    reveal_with_fuel(groups_below, 11);
}

/// The operations a run has reached, one bit each.
#[derive(Clone, Copy, Debug)]
pub struct Reached {
    /// The bits.
    pub bits: u64,
}

impl Reached {
    /// An operation was reached.
    pub open spec fn has(self, code: u32) -> bool {
        self.bits & (1u64 << (position_of(code) as u64)) != 0
    }

    /// Nothing was reached yet.
    pub fn new() -> (reached: Reached)
        ensures
            reached.bits == 0,
    {
        Reached { bits: 0 }
    }

    /// The operations this run has reached, one bit each.
    pub fn operations_reached(&self) -> (bits: u64)
        ensures
            bits == self.bits,
    {
        self.bits
    }

    /// Marks an operation as having been reached, for the run's own coverage.
    pub fn mark_reached(&mut self, row: &OpSpec)
        requires
            is_assigned(row.code),
            is_row(*row, row.code),
        ensures
            final(self).bits == old(self).bits | (1u64 << (position_of(row.code) as u64)),
            final(self).has(row.code),
            forall|other: u32|
                is_assigned(other) && other != row.code ==> (#[trigger] final(self).has(other)
                    == old(self).has(other)),
    {
        let before: u64 = self.bits;
        let at: u64 = row.position as u64;
        proof {
            positions_are_distinct(row.code, row.code);
            setting_a_bit_keeps_the_others(before, at, at);
        }
        self.bits = before | (1u64 << at);
        proof {
            assert forall|other: u32|
                is_assigned(other) && other != row.code implies #[trigger] self.has(other) == old(
                self,
            ).has(other) by {
                positions_are_distinct(row.code, other);
                positions_are_distinct(other, other);
                setting_a_bit_keeps_the_others(before, at, position_of(other) as u64);
            }
        }
    }
}

proof fn setting_a_bit_keeps_the_others(bits: u64, at: u64, other: u64)
    requires
        at < 64,
        other < 64,
    ensures
        (bits | (1u64 << at)) & (1u64 << at) != 0,
        at != other ==> ((bits | (1u64 << at)) & (1u64 << other) != 0 <==> bits & (1u64 << other)
            != 0),
{
    assert((bits | (1u64 << at)) & (1u64 << at) != 0 && (at != other ==> ((bits | (1u64 << at)) & (
    1u64 << other) != 0 <==> bits & (1u64 << other) != 0))) by (bit_vector)
        requires
            at < 64,
            other < 64,
    ;
}

} // verus!
