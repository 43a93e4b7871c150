//! Entries: what of a caller's registers and descriptor is accepted, and under
//! what authority.

use vstd::prelude::*;

use crate::abi::flag;
use crate::abi::op;
use crate::abi::operations::{descriptor_of, is_assigned, rights_of};
use crate::abi::status::Status;
use crate::api::dispatch::{
    answer_header, base_ctx, entry_fault, header_bytes, header_fault, header_in, header_reads_back,
    Entry, REFUSAL_RECORD_LIMIT, VERSION_MAJOR, VERSION_MINOR,
};
use crate::bytes::le;
use crate::limits::MAX_DOMAINS;
use crate::state::{Domain, MachineModel};

verus! {

/// A descriptor is accepted where its first bytes speak this version or an older
/// minor one, repeat the operation and the length of the entry, and leave clear
/// what is to be clear.
pub proof fn a_descriptor_repeats_its_entry(bytes: Seq<u8>, operation: u32, len: u64)
    requires
        bytes.len() >= 32,
    ensures
        header_fault(header_in(bytes), operation, len) is None <==> {
            &&& le(bytes, 0, 2) == VERSION_MAJOR
            &&& le(bytes, 2, 2) <= VERSION_MINOR
            &&& le(bytes, 4, 4) == operation
            &&& le(bytes, 8, 4) == 0
            &&& le(bytes, 12, 4) == len
            &&& le(bytes, 24, 8) == 0
        },
        header_in(bytes).cookie == le(bytes, 16, 8),
{
    reveal_with_fuel(le, 9);
}

/// An entry is accepted where its operation is assigned, its flags are known, it
/// asks not to wait only where it could, and it has a descriptor of exactly the
/// length its operation takes, or none.
pub proof fn an_entry_is_well_formed(entry: Entry)
    ensures
        entry_fault(entry) is None <==> {
            let operation = entry.operation as u32;
            &&& entry.operation <= u32::MAX
            &&& is_assigned(operation)
            &&& entry.flags & !flag::KNOWN == 0
            &&& entry.flags & flag::NONBLOCKING != 0 ==> {
                ||| operation == op::ENDPOINT_CALL
                ||| operation == op::ENDPOINT_RECEIVE
                ||| operation == op::SIGNAL_WAIT
                ||| operation == op::LOG_READ
                ||| operation == op::MEMORY_SEAL
                ||| operation == op::DOMAIN_UNMAP
                ||| operation == op::DEVICE_UNMAP_REGION
                ||| operation == op::DEVICE_RESET
            }
            &&& descriptor_of(operation) != 0 ==> entry.len == descriptor_of(operation)
            &&& descriptor_of(operation) == 0 ==> entry.descriptor == 0 && entry.len == 0
        },
{
}

/// An operation is carried out only under a capability of its own kind that has
/// the rights it takes, in a slot of the caller's own table. All but the three that
/// report on a lineage or give a handle up need the lineage to be open as well.
pub proof fn an_operation_needs_its_capability(
    m: MachineModel,
    domain: int,
    entry: Entry,
    now: u64,
)
    requires
        m.wf(),
        0 <= domain < MAX_DOMAINS,
        m.authority(domain, entry, now) is Ok,
    ensures
        ({
            let operation = entry.operation as u32;
            let kind = operation / 0x1_0000;
            let cap = m.authority(domain, entry, now)->Ok_0;
            let slot = entry.handle as int % 0x1_0000_0000;
            let held = m.caps[domain * crate::limits::MAX_CAPS + slot];
            &&& slot < crate::limits::MAX_CAPS
            &&& held.live
            &&& held.generation == entry.handle as int / 0x1_0000_0000
            &&& cap.object == held.object
            &&& cap.grant == held.grant
            &&& cap.rights == m.grants[held.grant as int].rights
            &&& cap.rights & rights_of(operation) == rights_of(operation)
            &&& kind == 0 || held.object.kind.type_spec() == kind
            &&& operation == op::CAP_INSPECT || operation == op::CAP_CLOSE || operation
                == op::CAP_DRAIN_STATUS || m.lineage_of(held.grant, now) == Status::Success
        }),
{
}

/// A refusal is counted against the domain that earned it, and recorded one by one
/// only up to a bound.
pub proof fn a_refusal_is_counted(m: MachineModel, d: int)
    requires
        m.wf(),
        0 <= d < MAX_DOMAINS,
    ensures
        ({
            let after = m.refusal_noted(d);
            let before = m.domains[d];
            &&& before.refusals < u64::MAX ==> after.domains[d].refusals == before.refusals + 1
            &&& before.refusal_records < REFUSAL_RECORD_LIMIT ==> after.domains[d].refusal_records
                == before.refusal_records + 1
            &&& before.refusal_records >= REFUSAL_RECORD_LIMIT ==> after.domains[d].refusal_records
                == before.refusal_records
            &&& after.domains[d] == (Domain {
                refusals: after.domains[d].refusals,
                refusal_records: after.domains[d].refusal_records,
                ..before
            })
            &&& forall|k: int|
                0 <= k < MAX_DOMAINS && k != d ==> #[trigger] after.domains[k] == m.domains[k]
            &&& after == (MachineModel { domains: after.domains, ..m })
        }),
{
}

/// An answer starts with a header that its caller can check: the version spoken
/// here, the operation, its length, and the caller's own word.
pub proof fn an_answer_hands_the_cookie_back(operation: u32, cookie: u64, body: Seq<u8>)
    ensures
        ({
            let header = header_in(header_bytes(answer_header(operation, cookie)) + body);
            &&& header.major == VERSION_MAJOR
            &&& header.minor == VERSION_MINOR
            &&& header.opcode == operation
            &&& header.total_len == descriptor_of(operation)
            &&& header.cookie == cookie
            &&& header.flags == 0
            &&& header.reserved == 0
        }),
{
    header_reads_back(answer_header(operation, cookie), body);
}

/// A handler sees the caller as the entry states it.
pub proof fn a_handler_sees_its_caller(domain: usize, thread: usize, entry: Entry, now: u64)
    requires
        entry.operation <= u32::MAX,
    ensures
        ({
            let ctx = base_ctx(domain, thread, entry, now);
            &&& ctx.domain == domain
            &&& ctx.thread == thread
            &&& ctx.handle == entry.handle
            &&& ctx.operation == entry.operation
            &&& ctx.flags == entry.flags
            &&& ctx.deadline == entry.deadline
            &&& ctx.now == now
        }),
{
}

} // verus!
