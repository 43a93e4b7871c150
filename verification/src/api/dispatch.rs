//! Dispatch: the structure of an entry, the authority behind it, and the
//! handler that answers it.
//!
//! An unassigned operation is refused, not ignored. The descriptor is validated
//! in kernel memory: version, declared length against the register length,
//! opcode against the operation, unknown flag bits, reserved words.

use vstd::prelude::*;

use crate::abi::operations::{
    answers, descriptor_of, is_assigned, is_row, position_of, rights_of, spec, OpSpec, Reached,
};
use crate::abi::request::{
    BindFacetRequest, CapInfo, DeriveRequest, DeviceInfo, DeviceIrqRequest, DeviceMapRequest,
    DmaGrantInfo, DmaMapRequest, DmaUnmapRequest, DomainInfo, DrainReport, EffectRequest,
    EndpointCreateRequest, EndpointInfo, FaultChannelRequest, InstallCapRequest, InvocationInfo,
    LogAppendRequest, LogInfo, MapRequest, MemoryCreateRequest, MemoryInfo, ReplyRequest,
    ResolveRequest, ScopeCreateRequest, ScopeInfo, ScopeLimits, SendRequest, SignalInfo,
    ThreadCreateRequest, TimerCreateRequest, TimerInfo,
};
use crate::abi::status::Status;
use crate::abi::wire::{self, double_word};
use crate::abi::{flag, message_kind, object_type, op, op_type, receipt_kind};
use crate::api::capops::any_ctx_ok;
use crate::api::devops::{free_vector, region_refused, TableEntry, INTERRUPT_ADDRESS_BASE};
use crate::api::domainops::map_refused;
use crate::api::scopeops::limits_of;
use crate::api::{
    capops, ctx_ok, devops, domainops, evtops, ipcops, logops, memops, obligations, resolve,
    resolve_observer, scopeops, Ctx, Resolved,
};
use crate::bytes::{
    le, le_bytes, le_bytes_len, read_u16, read_u32, read_u64, written_number_reads_back,
};
use crate::ctrl::{acknowledged, LogModel};
use crate::device::DEVICE_VECTOR_BASE;
use crate::domain::{
    first_kstack, kernel_took, reap_dead, reaping, stack_is_fresh, stack_is_mapped, stack_refused,
    CreateError,
};
use crate::events::Timer;
use crate::layout::KSTACK_PAGES;
use crate::limits::{
    CONTROL_LOG_CAPACITY, CONTROL_LOG_RESERVED, MAX_DOMAINS, MAX_GRANTS, MAX_SCOPES, MAX_THREADS,
};
use crate::mm::{first_run, run_is_zero, Owner};
use crate::obj::{cap_lookup, ObjKind, ObjRef, NO_GRANT};
use crate::scope::{open_within, Scope, State};
use crate::spaces::tables_grew;
use crate::state::{Domain, DomainState, ExitReason, Machine, MachineModel};

verus! {

/// Diagnostic records of refused operations per domain before they are only
/// counted.
pub const REFUSAL_RECORD_LIMIT: u32 = 64;

/// Major version of the interface.
pub const VERSION_MAJOR: u16 = 0;

/// Minor version of the interface.
pub const VERSION_MINOR: u16 = 2;

/// Body offset of every descriptor.
pub const BODY: usize = 32;

/// First bytes of every descriptor.
#[derive(Clone, Copy, Debug, PartialEq, Eq, Structural)]
pub struct DescriptorHeader {
    /// Major version the caller speaks.
    pub major: u16,
    /// Minor version the caller speaks.
    pub minor: u16,
    /// Operation.
    pub opcode: u32,
    /// Zero.
    pub flags: u32,
    /// Bytes of the descriptor, this header counted.
    pub total_len: u32,
    /// The caller's own word, handed back.
    pub cookie: u64,
    /// Zero.
    pub reserved: u64,
}

/// The bytes of a header.
pub open spec fn header_bytes(header: DescriptorHeader) -> Seq<u8> {
    le_bytes(header.major as nat, 2) + le_bytes(header.minor as nat, 2) + le_bytes(
        header.opcode as nat,
        4,
    ) + le_bytes(header.flags as nat, 4) + le_bytes(header.total_len as nat, 4) + le_bytes(
        header.cookie as nat,
        8,
    ) + le_bytes(header.reserved as nat, 8)
}

/// The header that bytes hold.
pub open spec fn header_in(bytes: Seq<u8>) -> DescriptorHeader {
    DescriptorHeader {
        major: le(bytes, 0, 2) as u16,
        minor: le(bytes, 2, 2) as u16,
        opcode: le(bytes, 4, 4) as u32,
        flags: le(bytes, 8, 4) as u32,
        total_len: le(bytes, 12, 4) as u32,
        cookie: le(bytes, 16, 8) as u64,
        reserved: le(bytes, 24, 8) as u64,
    }
}

/// Reads the header of a descriptor.
pub fn read_header(bytes: &[u8]) -> (header: Option<DescriptorHeader>)
    ensures
        header is Some <==> bytes@.len() >= BODY,
        header matches Some(h) ==> h == header_in(bytes@),
{
    if bytes.len() < BODY {
        return None;
    }
    match (
        read_u16(bytes, 0),
        read_u16(bytes, 2),
        read_u32(bytes, 4),
        read_u32(bytes, 8),
        read_u32(bytes, 12),
        read_u64(bytes, 16),
        read_u64(bytes, 24),
    ) {
        (
            Some(major),
            Some(minor),
            Some(opcode),
            Some(flags),
            Some(total_len),
            Some(cookie),
            Some(reserved),
        ) => Some(
            DescriptorHeader { major, minor, opcode, flags, total_len, cookie, reserved },
        ),
        _ => None,
    }
}

/// Why a header is refused, or nothing.
pub open spec fn header_fault(header: DescriptorHeader, operation: u32, len: u64) -> Option<Status> {
    if header.major != VERSION_MAJOR || header.minor > VERSION_MINOR {
        Some(Status::IncompatibleVersion)
    } else if header.opcode != operation || header.total_len != len || header.flags != 0
        || header.reserved != 0 {
        Some(Status::InvalidArgument)
    } else {
        None
    }
}

/// Validates the descriptor header the caller supplied.
pub fn validate_header(header: &DescriptorHeader, operation: u32, len: u64) -> (result: Result<
    (),
    Status,
>)
    ensures
        match header_fault(*header, operation, len) {
            Some(code) => result == Err::<(), Status>(code),
            None => result is Ok,
        },
{
    if header.major != VERSION_MAJOR {
        return Err(Status::IncompatibleVersion);
    }
    if header.minor > VERSION_MINOR {
        return Err(Status::IncompatibleVersion);
    }
    if header.opcode != operation {
        return Err(Status::InvalidArgument);
    }
    if header.total_len as u64 != len {
        return Err(Status::InvalidArgument);
    }
    if header.flags != 0 || header.reserved != 0 {
        return Err(Status::InvalidArgument);
    }
    Ok(())
}

/// True for the three operations that report on, or clean up after, a lineage
/// that may already be dead.
pub open spec fn is_observing(operation: u32) -> bool {
    operation == op::CAP_INSPECT || operation == op::CAP_CLOSE || operation == op::CAP_DRAIN_STATUS
}

/// True for the three operations that report on, or clean up after, a lineage
/// that may already be dead.
pub fn observes_lineage(operation: u32) -> (yes: bool)
    ensures
        yes == is_observing(operation),
{
    operation == op::CAP_INSPECT || operation == op::CAP_CLOSE || operation == op::CAP_DRAIN_STATUS
}

/// True for the operations that can wait, for another domain or for the other
/// processors.
pub open spec fn is_waiting(operation: u32) -> bool {
    ||| operation == op::ENDPOINT_CALL
    ||| operation == op::ENDPOINT_RECEIVE
    ||| operation == op::SIGNAL_WAIT
    ||| operation == op::LOG_READ
    ||| operation == op::MEMORY_SEAL
    ||| operation == op::DOMAIN_UNMAP
    ||| operation == op::DEVICE_UNMAP_REGION
    ||| operation == op::DEVICE_RESET
}

/// True for the operations that can wait.
///
/// Four of them wait for another domain or for a device. The other four wait
/// for the other processors: withdrawing a mapping and publishing a seal are not
/// complete until every processor has retired the translations they removed.
pub fn waits(operation: u32) -> (yes: bool)
    ensures
        yes == is_waiting(operation),
{
    operation == op::ENDPOINT_CALL || operation == op::ENDPOINT_RECEIVE || operation
        == op::SIGNAL_WAIT || operation == op::LOG_READ || operation == op::MEMORY_SEAL || operation
        == op::DOMAIN_UNMAP || operation == op::DEVICE_UNMAP_REGION || operation
        == op::DEVICE_RESET
}

/// The registers of an entry.
#[derive(Clone, Copy, Debug, PartialEq, Eq, Structural)]
pub struct Entry {
    /// Handle.
    pub handle: u64,
    /// Operation.
    pub operation: u64,
    /// Address of the descriptor.
    pub descriptor: u64,
    /// Bytes of the descriptor.
    pub len: u64,
    /// Flags.
    pub flags: u64,
    /// Deadline, or zero.
    pub deadline: u64,
}

/// Why the registers of an entry are refused, with the operation the refusal is
/// recorded under, or nothing.
pub open spec fn entry_fault(entry: Entry) -> Option<(u32, Status)> {
    let operation = entry.operation as u32;
    if entry.operation > u32::MAX {
        Some((0, Status::InvalidArgument))
    } else if !is_assigned(operation) {
        Some((operation, Status::NotSupported))
    } else if entry.flags & !flag::KNOWN != 0 {
        Some((operation, Status::InvalidArgument))
    } else if !is_waiting(operation) && entry.flags & flag::NONBLOCKING != 0 {
        Some((operation, Status::InvalidArgument))
    } else if descriptor_of(operation) != 0 && entry.len != descriptor_of(operation) {
        Some((operation, Status::InvalidArgument))
    } else if descriptor_of(operation) == 0 && (entry.descriptor != 0 || entry.len != 0) {
        Some((operation, Status::InvalidArgument))
    } else {
        None
    }
}

/// Looks the operation up and checks the registers against it, before anything
/// is read.
pub fn check_entry(entry: &Entry) -> (result: Result<OpSpec, (u32, Status)>)
    ensures
        match entry_fault(*entry) {
            Some(refusal) => result matches Err(r) && r == refusal,
            None => result matches Ok(row) && is_row(row, entry.operation as u32) && is_assigned(
                entry.operation as u32,
            ),
        },
{
    if entry.operation > 0xFFFF_FFFF {
        return Err((0, Status::InvalidArgument));
    }
    let operation: u32 = entry.operation as u32;
    let row = match spec(operation) {
        None => {
            return Err((operation, Status::NotSupported));
        },
        Some(row) => row,
    };
    if entry.flags & !flag::KNOWN != 0 {
        return Err((operation, Status::InvalidArgument));
    }
    if !waits(operation) && entry.flags & flag::NONBLOCKING != 0 {
        return Err((operation, Status::InvalidArgument));
    }
    if row.descriptor_len != 0 {
        if entry.len != row.descriptor_len as u64 {
            return Err((operation, Status::InvalidArgument));
        }
    } else if entry.descriptor != 0 || entry.len != 0 {
        return Err((operation, Status::InvalidArgument));
    }
    Ok(row)
}

/// What an entry says of its caller, before its handle has been resolved.
pub open spec fn base_ctx(domain: usize, thread: usize, entry: Entry, now: u64) -> Ctx {
    Ctx {
        domain,
        thread,
        handle: entry.handle,
        operation: entry.operation as u32,
        flags: entry.flags,
        deadline: entry.deadline,
        now,
        cap: Resolved {
            slot: 0,
            object: ObjRef { kind: ObjKind::Scope, index: 0, generation: 0 },
            grant: NO_GRANT,
            rights: 0,
            facet: 0,
        },
    }
}

/// What an entry says of its caller, for an operation that resolves its handle
/// itself.
pub fn unresolved(domain: usize, thread: usize, entry: &Entry, now: u64) -> (ctx: Ctx)
    requires
        entry.operation <= u32::MAX,
    ensures
        ctx == base_ctx(domain, thread, *entry, now),
{
    Ctx {
        domain,
        thread,
        handle: entry.handle,
        operation: entry.operation as u32,
        flags: entry.flags,
        deadline: entry.deadline,
        now,
        cap: Resolved {
            slot: 0,
            object: ObjRef { kind: ObjKind::Scope, index: 0, generation: 0 },
            grant: NO_GRANT,
            rights: 0,
            facet: 0,
        },
    }
}

impl MachineModel {
    /// What the handle of an entry names, or why it may not be used.
    pub open spec fn authority(self, domain: int, entry: Entry, now: u64) -> Result<
        Resolved,
        Status,
    > {
        let operation = entry.operation as u32;
        if is_observing(operation) {
            self.resolved_entry(
                domain,
                entry.handle,
                operation / 0x1_0000,
                rights_of(operation),
            )
        } else {
            self.resolved(
                domain,
                entry.handle,
                operation / 0x1_0000,
                rights_of(operation),
                now,
            )
        }
    }
}

/// The caller and its capability are what a handler of a group expects.
pub open spec fn is_for(ctx: Ctx, group: u32) -> bool {
    match group {
        0 => any_ctx_ok(ctx),
        1 => ctx_ok(ctx, ObjKind::Scope),
        2 => ctx_ok(ctx, ObjKind::Domain),
        3 => ctx_ok(ctx, ObjKind::Memory),
        4 => ctx_ok(ctx, ObjKind::Endpoint),
        5 => ctx_ok(ctx, ObjKind::Invocation),
        6 => ctx_ok(ctx, ObjKind::Signal),
        7 => ctx_ok(ctx, ObjKind::Timer),
        8 => ctx_ok(ctx, ObjKind::ControlLog),
        _ => ctx_ok(ctx, ObjKind::Device),
    }
}

/// Resolves the handle of an entry against what its operation needs.
pub fn authorize(
    machine: &Machine,
    domain: usize,
    thread: usize,
    entry: &Entry,
    row: &OpSpec,
    now: u64,
) -> (result: Result<Ctx, Status>)
    requires
        machine.wf(),
        domain < MAX_DOMAINS,
        thread < MAX_THREADS,
        entry_fault(*entry) is None,
        is_row(*row, entry.operation as u32),
    ensures
        match machine@.authority(domain as int, *entry, now) {
            Err(code) => result == Err::<Ctx, Status>(code),
            Ok(cap) => {
                &&& result == Ok::<Ctx, Status>(
                    Ctx { cap, ..base_ctx(domain, thread, *entry, now) },
                )
                &&& is_for(result->Ok_0, op_type_of(entry.operation as u32))
            },
        },
{
    let operation: u32 = entry.operation as u32;
    let resolved = if observes_lineage(operation) {
        resolve_observer(machine, domain, entry.handle, row.object_type, row.rights)
    } else {
        resolve(machine, domain, entry.handle, row.object_type, row.rights, now)
    };
    match resolved {
        Err(code) => Err(code),
        Ok(cap) => Ok(Ctx { cap, ..unresolved(domain, thread, entry, now) }),
    }
}

impl MachineModel {
    /// The machine once a refusal has been counted.
    pub open spec fn refusal_noted(self, d: int) -> MachineModel {
        let domain = self.domains[d];
        self.with_domain(
            d,
            Domain {
                refusals: ipcops::one_more64(domain.refusals),
                refusal_records: if domain.refusal_records >= REFUSAL_RECORD_LIMIT {
                    domain.refusal_records
                } else {
                    (domain.refusal_records + 1) as u32
                },
                ..domain
            },
        )
    }
}

/// Counts a refused operation; returns whether it is recorded one by one.
///
/// Every refusal is recorded up to a per-domain bound and counted afterwards,
/// so an adversarial domain cannot flood the plane.
pub fn note_refusal(machine: &mut Machine, domain: usize) -> (recorded: bool)
    requires
        old(machine).wf(),
    ensures
        final(machine).wf(),
        final(machine).same_tables(*old(machine)),
        if domain >= MAX_DOMAINS {
            !recorded && final(machine)@ == old(machine)@
        } else {
            &&& recorded == (old(machine)@.domains[domain as int].refusal_records
                < REFUSAL_RECORD_LIMIT)
            &&& final(machine)@ == old(machine)@.refusal_noted(domain as int)
        },
{
    if domain >= MAX_DOMAINS {
        return false;
    }
    proof {
        machine.domain_is_ok(domain);
    }
    let before = machine.domain(domain);
    let recorded = before.refusal_records < REFUSAL_RECORD_LIMIT;
    machine.set_domain(
        domain,
        Domain {
            refusals: before.refusals.saturating_add(1),
            refusal_records: if recorded {
                before.refusal_records + 1
            } else {
                before.refusal_records
            },
            ..before
        },
    );
    recorded
}

/// Looks the operation of an entry up and checks the registers against it; a
/// refusal is counted against the domain, and says whether it is recorded one by
/// one.
///
/// An operation that is assigned is marked as reached, whatever else the
/// registers say.
pub fn accept_entry(
    machine: &mut Machine,
    reached: &mut Reached,
    domain: usize,
    entry: &Entry,
) -> (result: Result<OpSpec, (u32, Status, bool)>)
    requires
        old(machine).wf(),
    ensures
        final(machine).wf(),
        final(machine).same_tables(*old(machine)),
        final(reached).bits == if entry.operation <= 0xFFFF_FFFF && is_assigned(
            entry.operation as u32,
        ) {
            old(reached).bits | (1u64 << (position_of(entry.operation as u32) as u64))
        } else {
            old(reached).bits
        },
        match entry_fault(*entry) {
            Some((operation, code)) => {
                &&& result matches Err(refusal) && refusal == (
                    operation,
                    code,
                    domain < MAX_DOMAINS && old(machine)@.domains[domain as int].refusal_records
                        < REFUSAL_RECORD_LIMIT,
                )
                &&& final(machine)@ == if domain < MAX_DOMAINS {
                    old(machine)@.refusal_noted(domain as int)
                } else {
                    old(machine)@
                }
            },
            None => {
                &&& result matches Ok(row) && is_row(row, entry.operation as u32) && is_assigned(
                    entry.operation as u32,
                )
                &&& final(machine)@ == old(machine)@
            },
        },
{
    if entry.operation <= 0xFFFF_FFFF {
        if let Some(row) = spec(entry.operation as u32) {
            reached.mark_reached(&row);
        }
    }
    match check_entry(entry) {
        Ok(row) => Ok(row),
        Err((operation, code)) => {
            let recorded = note_refusal(machine, domain);
            Err((operation, code, recorded))
        },
    }
}

/// A descriptor in kernel memory.
#[derive(Clone, Debug)]
pub struct Staging {
    /// Its bytes.
    pub bytes: Vec<u8>,
    /// Whether a handler wrote an answer into it.
    pub filled: bool,
}

impl Staging {
    /// A descriptor of `len` bytes, all zero.
    pub fn new(len: usize) -> (staging: Staging)
        ensures
            staging.bytes@ == Seq::new(len as nat, |i: int| 0u8),
            !staging.filled,
    {
        let mut bytes: Vec<u8> = Vec::new();
        for i in 0..len
            invariant
                bytes@ == Seq::new(i as nat, |k: int| 0u8),
        {
            bytes.push(0);
            assert(bytes@ =~= Seq::new((i + 1) as nat, |k: int| 0u8));
        }
        Staging { bytes, filled: false }
    }
}

/// Overwrites bytes of a vector with the lowest bytes of a number.
fn put(bytes: &mut Vec<u8>, at: usize, value: u64, width: usize)
    requires
        at + width <= old(bytes)@.len(),
        width <= 8,
    ensures
        final(bytes)@.len() == old(bytes)@.len(),
        final(bytes)@.subrange(at as int, at + width) == le_bytes(value as nat, width as nat),
        forall|k: int|
            0 <= k < old(bytes)@.len() && !(at <= k < at + width) ==> #[trigger] final(bytes)@[k]
                == old(bytes)@[k],
{
    let ghost before = bytes@;
    let ghost whole = le_bytes(value as nat, width as nat);
    assert(bytes.len() == before.len());
    let mut rest: u64 = value;
    proof {
        le_bytes_len(value as nat, width as nat);
        assert(whole.skip(0) =~= whole);
    }
    for i in 0..width
        invariant
            at + width <= before.len() <= usize::MAX,
            bytes@.len() == before.len(),
            whole.len() == width,
            whole.skip(i as int) == le_bytes(rest as nat, (width - i) as nat),
            forall|k: int|
                0 <= k < before.len() ==> #[trigger] bytes@[k] == if at <= k < at + i {
                    whole[k - at]
                } else {
                    before[k]
                },
    {
        let ghost here = le_bytes(rest as nat, (width - i) as nat);
        let ghost next = le_bytes(rest as nat / 256, (width - i - 1) as nat);
        proof {
            le_bytes_len(rest as nat / 256, (width - i - 1) as nat);
            assert(whole.skip(i as int)[0] == whole[i as int]);
            assert(whole.skip(i + 1) =~= next) by {
                assert forall|k: int| 0 <= k < width - i - 1 implies #[trigger] whole.skip(
                    i + 1,
                )[k] == next[k] by {
                    assert(whole.skip(i as int)[k + 1] == here[k + 1]);
                }
            }
        }
        bytes.set(at + i, (rest % 256) as u8);
        rest = rest / 256;
    }
    assert(bytes@.subrange(at as int, at + width) =~= whole);
}

/// The header of an answer.
pub open spec fn answer_header(operation: u32, cookie: u64) -> DescriptorHeader {
    DescriptorHeader {
        major: VERSION_MAJOR,
        minor: VERSION_MINOR,
        opcode: operation,
        flags: 0,
        total_len: descriptor_of(operation),
        cookie,
        reserved: 0,
    }
}

/// Fills in the response header of a descriptor the kernel is writing back.
pub fn response_header(staging: &mut Staging, row: &OpSpec, cookie: u64)
    requires
        old(staging).bytes@.len() >= BODY,
        is_row(*row, row.code),
    ensures
        final(staging).bytes@ == header_bytes(answer_header(row.code, cookie)) + old(
            staging,
        ).bytes@.skip(BODY as int),
        final(staging).filled == old(staging).filled,
{
    let ghost before = staging.bytes@;
    let header = DescriptorHeader {
        major: VERSION_MAJOR,
        minor: VERSION_MINOR,
        opcode: row.code,
        flags: 0,
        total_len: row.descriptor_len,
        cookie,
        reserved: 0,
    };
    put(&mut staging.bytes, 0, header.major as u64, 2);
    let ghost one = staging.bytes@;
    put(&mut staging.bytes, 2, header.minor as u64, 2);
    let ghost two = staging.bytes@;
    put(&mut staging.bytes, 4, header.opcode as u64, 4);
    let ghost three = staging.bytes@;
    put(&mut staging.bytes, 8, header.flags as u64, 4);
    let ghost four = staging.bytes@;
    put(&mut staging.bytes, 12, header.total_len as u64, 4);
    let ghost five = staging.bytes@;
    put(&mut staging.bytes, 16, header.cookie, 8);
    let ghost six = staging.bytes@;
    put(&mut staging.bytes, 24, header.reserved, 8);
    proof {
        let last = staging.bytes@;
        le_bytes_len(header.major as nat, 2);
        le_bytes_len(header.minor as nat, 2);
        le_bytes_len(header.opcode as nat, 4);
        le_bytes_len(header.flags as nat, 4);
        le_bytes_len(header.total_len as nat, 4);
        le_bytes_len(header.cookie as nat, 8);
        le_bytes_len(header.reserved as nat, 8);
        assert(last.subrange(0, 2) =~= one.subrange(0, 2));
        assert(last.subrange(2, 4) =~= two.subrange(2, 4));
        assert(last.subrange(4, 8) =~= three.subrange(4, 8));
        assert(last.subrange(8, 12) =~= four.subrange(8, 12));
        assert(last.subrange(12, 16) =~= five.subrange(12, 16));
        assert(last.subrange(16, 24) =~= six.subrange(16, 24));
        assert(last.skip(BODY as int) =~= before.skip(BODY as int));
        assert(last =~= last.subrange(0, 2) + last.subrange(2, 4) + last.subrange(4, 8)
            + last.subrange(8, 12) + last.subrange(12, 16) + last.subrange(16, 24)
            + last.subrange(24, 32) + last.skip(BODY as int));
        assert(header == answer_header(row.code, cookie));
    }
}

/// Prepares a response body, zeroing whatever the request left behind.
///
/// A response never leaves the caller's own request bytes in the tail of the
/// buffer: the descriptor a caller reads back is entirely the kernel's.
pub fn begin_response(staging: &mut Staging, operation: u32)
    requires
        is_assigned(operation),
        descriptor_of(operation) != 0,
        old(staging).bytes@.len() == descriptor_of(operation),
    ensures
        final(staging).filled,
        final(staging).bytes@ == header_bytes(
            answer_header(operation, header_in(old(staging).bytes@).cookie),
        ) + Seq::new((descriptor_of(operation) - BODY) as nat, |i: int| 0u8),
{
    proof {
        descriptors_hold_a_header(operation);
    }
    let cookie: u64 = match read_header(staging.bytes.as_slice()) {
        Some(header) => header.cookie,
        None => 0,
    };
    staging.filled = true;
    let len: usize = staging.bytes.len();
    for i in BODY..len
        invariant
            BODY <= i <= len,
            staging.bytes@.len() == len,
            staging.filled,
            forall|k: int| BODY <= k < i ==> #[trigger] staging.bytes@[k] == 0,
    {
        staging.bytes.set(i, 0);
    }
    match spec(operation) {
        None => {},
        Some(row) => {
            assert(staging.bytes@.skip(BODY as int) =~= Seq::new(
                (descriptor_of(operation) - BODY) as nat,
                |i: int| 0u8,
            ));
            response_header(staging, &row, cookie);
        },
    }
}

proof fn descriptors_hold_a_header(operation: u32)
    ensures
        descriptor_of(operation) == 0 || descriptor_of(operation) >= BODY,
        answers(operation) ==> descriptor_of(operation) != 0,
{
}

/// A header reads back as it was written.
pub proof fn header_reads_back(header: DescriptorHeader, body: Seq<u8>)
    ensures
        header_in(header_bytes(header) + body) == header,
{
    let bytes = header_bytes(header) + body;
    le_bytes_len(header.major as nat, 2);
    le_bytes_len(header.minor as nat, 2);
    le_bytes_len(header.opcode as nat, 4);
    le_bytes_len(header.flags as nat, 4);
    le_bytes_len(header.total_len as nat, 4);
    le_bytes_len(header.cookie as nat, 8);
    le_bytes_len(header.reserved as nat, 8);
    assert(bytes.subrange(0, 2) =~= le_bytes(header.major as nat, 2));
    assert(bytes.subrange(2, 4) =~= le_bytes(header.minor as nat, 2));
    assert(bytes.subrange(4, 8) =~= le_bytes(header.opcode as nat, 4));
    assert(bytes.subrange(8, 12) =~= le_bytes(header.flags as nat, 4));
    assert(bytes.subrange(12, 16) =~= le_bytes(header.total_len as nat, 4));
    assert(bytes.subrange(16, 24) =~= le_bytes(header.cookie as nat, 8));
    assert(bytes.subrange(24, 32) =~= le_bytes(header.reserved as nat, 8));
    field_reads_back(bytes, 0, header.major as nat, 2);
    field_reads_back(bytes, 2, header.minor as nat, 2);
    field_reads_back(bytes, 4, header.opcode as nat, 4);
    field_reads_back(bytes, 8, header.flags as nat, 4);
    field_reads_back(bytes, 12, header.total_len as nat, 4);
    field_reads_back(bytes, 16, header.cookie as nat, 8);
    field_reads_back(bytes, 24, header.reserved as nat, 8);
}

proof fn field_reads_back(bytes: Seq<u8>, at: int, value: nat, width: nat)
    requires
        0 <= at,
        at + width <= bytes.len(),
        bytes.subrange(at, at + width) == le_bytes(value, width),
        width == 2 && value < 0x1_0000 || width == 4 && value < 0x1_0000_0000 || width == 8 && value
            < 0x1_0000_0000_0000_0000,
    ensures
        le(bytes, at, width) == value,
{
    written_number_reads_back(bytes, at, value, width);
    powers_of_a_byte();
    vstd::arithmetic::div_mod::lemma_small_mod(
        value,
        vstd::arithmetic::power::pow(256, width) as nat,
    );
}

proof fn powers_of_a_byte()
    ensures
        vstd::arithmetic::power::pow(256, 2) == 0x1_0000,
        vstd::arithmetic::power::pow(256, 4) == 0x1_0000_0000,
        vstd::arithmetic::power::pow(256, 8) == 0x1_0000_0000_0000_0000,
{
    reveal_with_fuel(vstd::arithmetic::power::pow, 9);
}

/// The group of an operation, and the type its handle names.
pub open spec fn op_type_of(operation: u32) -> u32 {
    operation / 0x1_0000
}

/// What the machine around the library contributes to an operation.
#[derive(Clone, Copy, Debug)]
pub struct Host {
    /// Processor the operation runs on.
    pub cpu: usize,
    /// Processor time not yet settled against a scope.
    pub pending: u64,
    /// Interrupt destination of the first processor.
    pub destination: u32,
}

/// An operation that completes without waiting, with what its descriptor said.
pub enum Request {
    /// `CAP_INSPECT`.
    CapInspect,
    /// `CAP_DERIVE`.
    CapDerive(DeriveRequest),
    /// `CAP_COPY`.
    CapCopy,
    /// `CAP_CLOSE`.
    CapClose,
    /// `CAP_FENCE`.
    CapFence,
    /// `CAP_DRAIN_STATUS`.
    CapDrainStatus,
    /// `SCOPE_CREATE_CHILD`.
    ScopeCreateChild(ScopeCreateRequest),
    /// `SCOPE_QUERY`.
    ScopeQuery,
    /// `SCOPE_SET_LIMITS`.
    ScopeSetLimits(ScopeLimits),
    /// `SCOPE_FENCE`.
    ScopeFence,
    /// `SCOPE_DRAIN_STATUS`.
    ScopeDrainStatus,
    /// `SCOPE_RETIRE`.
    ScopeRetire,
    /// `SCOPE_CREATE_MEMORY`.
    ScopeCreateMemory(MemoryCreateRequest),
    /// `SCOPE_CREATE_ENDPOINT`.
    ScopeCreateEndpoint(EndpointCreateRequest),
    /// `SCOPE_CREATE_SIGNAL`.
    ScopeCreateSignal,
    /// `SCOPE_CREATE_TIMER`.
    ScopeCreateTimer(TimerCreateRequest),
    /// `DOMAIN_MAP`.
    DomainMap(MapRequest),
    /// `DOMAIN_INSTALL_CAP`.
    DomainInstallCap(InstallCapRequest),
    /// `DOMAIN_ADD_THREAD`.
    DomainAddThread(ThreadCreateRequest),
    /// `DOMAIN_SET_FAULT_CHANNEL`.
    DomainSetFaultChannel(FaultChannelRequest),
    /// `DOMAIN_ACTIVATE`.
    DomainActivate,
    /// `DOMAIN_TERMINATE`.
    DomainTerminate,
    /// `DOMAIN_QUERY`.
    DomainQuery,
    /// `MEMORY_QUERY`.
    MemoryQuery,
    /// `ENDPOINT_BIND_FACET`.
    EndpointBindFacet(BindFacetRequest),
    /// `ENDPOINT_SEND`.
    EndpointSend(SendRequest),
    /// `ENDPOINT_QUERY`.
    EndpointQuery,
    /// `INVOCATION_REPLY`.
    InvocationReply(ReplyRequest),
    /// `INVOCATION_BEGIN_EFFECT`.
    InvocationBeginEffect(EffectRequest),
    /// `INVOCATION_RESOLVE`.
    InvocationResolve(ResolveRequest),
    /// `INVOCATION_QUERY`.
    InvocationQuery,
    /// `INVOCATION_BIND_WORKER`.
    InvocationBindWorker,
    /// `INVOCATION_UNBIND_WORKER`.
    InvocationUnbindWorker,
    /// `SIGNAL_RAISE`.
    SignalRaise(u64),
    /// `SIGNAL_QUERY`.
    SignalQuery,
    /// `TIMER_ARM`.
    TimerArm(u64),
    /// `TIMER_CANCEL`.
    TimerCancel,
    /// `TIMER_QUERY`.
    TimerQuery,
    /// `LOG_APPEND`.
    LogAppend(LogAppendRequest),
    /// `LOG_ACK`.
    LogAck(u64),
    /// `LOG_QUERY`.
    LogQuery,
    /// `DEVICE_QUERY`.
    DeviceQuery,
    /// `DEVICE_MAP_REGION`.
    DeviceMapRegion(DeviceMapRequest),
    /// `DEVICE_BIND_IRQ`.
    DeviceBindIrq(DeviceIrqRequest),
    /// `DEVICE_DMA_MAP`.
    DeviceDmaMap(DmaMapRequest),
    /// `DEVICE_DMA_UNMAP`.
    DeviceDmaUnmap(DmaUnmapRequest),
}

impl Request {
    /// Its operation code.
    pub open spec fn code(self) -> u32 {
        match self {
            Request::CapInspect => op::CAP_INSPECT,
            Request::CapDerive(_) => op::CAP_DERIVE,
            Request::CapCopy => op::CAP_COPY,
            Request::CapClose => op::CAP_CLOSE,
            Request::CapFence => op::CAP_FENCE,
            Request::CapDrainStatus => op::CAP_DRAIN_STATUS,
            Request::ScopeCreateChild(_) => op::SCOPE_CREATE_CHILD,
            Request::ScopeQuery => op::SCOPE_QUERY,
            Request::ScopeSetLimits(_) => op::SCOPE_SET_LIMITS,
            Request::ScopeFence => op::SCOPE_FENCE,
            Request::ScopeDrainStatus => op::SCOPE_DRAIN_STATUS,
            Request::ScopeRetire => op::SCOPE_RETIRE,
            Request::ScopeCreateMemory(_) => op::SCOPE_CREATE_MEMORY,
            Request::ScopeCreateEndpoint(_) => op::SCOPE_CREATE_ENDPOINT,
            Request::ScopeCreateSignal => op::SCOPE_CREATE_SIGNAL,
            Request::ScopeCreateTimer(_) => op::SCOPE_CREATE_TIMER,
            Request::DomainMap(_) => op::DOMAIN_MAP,
            Request::DomainInstallCap(_) => op::DOMAIN_INSTALL_CAP,
            Request::DomainAddThread(_) => op::DOMAIN_ADD_THREAD,
            Request::DomainSetFaultChannel(_) => op::DOMAIN_SET_FAULT_CHANNEL,
            Request::DomainActivate => op::DOMAIN_ACTIVATE,
            Request::DomainTerminate => op::DOMAIN_TERMINATE,
            Request::DomainQuery => op::DOMAIN_QUERY,
            Request::MemoryQuery => op::MEMORY_QUERY,
            Request::EndpointBindFacet(_) => op::ENDPOINT_BIND_FACET,
            Request::EndpointSend(_) => op::ENDPOINT_SEND,
            Request::EndpointQuery => op::ENDPOINT_QUERY,
            Request::InvocationReply(_) => op::INVOCATION_REPLY,
            Request::InvocationBeginEffect(_) => op::INVOCATION_BEGIN_EFFECT,
            Request::InvocationResolve(_) => op::INVOCATION_RESOLVE,
            Request::InvocationQuery => op::INVOCATION_QUERY,
            Request::InvocationBindWorker => op::INVOCATION_BIND_WORKER,
            Request::InvocationUnbindWorker => op::INVOCATION_UNBIND_WORKER,
            Request::SignalRaise(_) => op::SIGNAL_RAISE,
            Request::SignalQuery => op::SIGNAL_QUERY,
            Request::TimerArm(_) => op::TIMER_ARM,
            Request::TimerCancel => op::TIMER_CANCEL,
            Request::TimerQuery => op::TIMER_QUERY,
            Request::LogAppend(_) => op::LOG_APPEND,
            Request::LogAck(_) => op::LOG_ACK,
            Request::LogQuery => op::LOG_QUERY,
            Request::DeviceQuery => op::DEVICE_QUERY,
            Request::DeviceMapRegion(_) => op::DEVICE_MAP_REGION,
            Request::DeviceBindIrq(_) => op::DEVICE_BIND_IRQ,
            Request::DeviceDmaMap(_) => op::DEVICE_DMA_MAP,
            Request::DeviceDmaUnmap(_) => op::DEVICE_DMA_UNMAP,
        }
    }

    /// Its operation code.
    pub fn operation(&self) -> (code: u32)
        ensures
            code == self.code(),
    {
        match self {
            Request::CapInspect => op::CAP_INSPECT,
            Request::CapDerive(_) => op::CAP_DERIVE,
            Request::CapCopy => op::CAP_COPY,
            Request::CapClose => op::CAP_CLOSE,
            Request::CapFence => op::CAP_FENCE,
            Request::CapDrainStatus => op::CAP_DRAIN_STATUS,
            Request::ScopeCreateChild(_) => op::SCOPE_CREATE_CHILD,
            Request::ScopeQuery => op::SCOPE_QUERY,
            Request::ScopeSetLimits(_) => op::SCOPE_SET_LIMITS,
            Request::ScopeFence => op::SCOPE_FENCE,
            Request::ScopeDrainStatus => op::SCOPE_DRAIN_STATUS,
            Request::ScopeRetire => op::SCOPE_RETIRE,
            Request::ScopeCreateMemory(_) => op::SCOPE_CREATE_MEMORY,
            Request::ScopeCreateEndpoint(_) => op::SCOPE_CREATE_ENDPOINT,
            Request::ScopeCreateSignal => op::SCOPE_CREATE_SIGNAL,
            Request::ScopeCreateTimer(_) => op::SCOPE_CREATE_TIMER,
            Request::DomainMap(_) => op::DOMAIN_MAP,
            Request::DomainInstallCap(_) => op::DOMAIN_INSTALL_CAP,
            Request::DomainAddThread(_) => op::DOMAIN_ADD_THREAD,
            Request::DomainSetFaultChannel(_) => op::DOMAIN_SET_FAULT_CHANNEL,
            Request::DomainActivate => op::DOMAIN_ACTIVATE,
            Request::DomainTerminate => op::DOMAIN_TERMINATE,
            Request::DomainQuery => op::DOMAIN_QUERY,
            Request::MemoryQuery => op::MEMORY_QUERY,
            Request::EndpointBindFacet(_) => op::ENDPOINT_BIND_FACET,
            Request::EndpointSend(_) => op::ENDPOINT_SEND,
            Request::EndpointQuery => op::ENDPOINT_QUERY,
            Request::InvocationReply(_) => op::INVOCATION_REPLY,
            Request::InvocationBeginEffect(_) => op::INVOCATION_BEGIN_EFFECT,
            Request::InvocationResolve(_) => op::INVOCATION_RESOLVE,
            Request::InvocationQuery => op::INVOCATION_QUERY,
            Request::InvocationBindWorker => op::INVOCATION_BIND_WORKER,
            Request::InvocationUnbindWorker => op::INVOCATION_UNBIND_WORKER,
            Request::SignalRaise(_) => op::SIGNAL_RAISE,
            Request::SignalQuery => op::SIGNAL_QUERY,
            Request::TimerArm(_) => op::TIMER_ARM,
            Request::TimerCancel => op::TIMER_CANCEL,
            Request::TimerQuery => op::TIMER_QUERY,
            Request::LogAppend(_) => op::LOG_APPEND,
            Request::LogAck(_) => op::LOG_ACK,
            Request::LogQuery => op::LOG_QUERY,
            Request::DeviceQuery => op::DEVICE_QUERY,
            Request::DeviceMapRegion(_) => op::DEVICE_MAP_REGION,
            Request::DeviceBindIrq(_) => op::DEVICE_BIND_IRQ,
            Request::DeviceDmaMap(_) => op::DEVICE_DMA_MAP,
            Request::DeviceDmaUnmap(_) => op::DEVICE_DMA_UNMAP,
        }
    }
}

/// What a descriptor carries back.
pub enum Response {
    /// The descriptor is left alone.
    Nothing,
    /// About a capability.
    Cap(CapInfo),
    /// What is still outstanding.
    Drain(DrainReport),
    /// About a scope.
    Scope(ScopeInfo),
    /// About a domain.
    Domain(DomainInfo),
    /// About a memory object.
    Memory(MemoryInfo),
    /// About an endpoint.
    Endpoint(EndpointInfo),
    /// About an invocation.
    Invocation(InvocationInfo),
    /// About a signal.
    Signal(SignalInfo),
    /// About a timer.
    Timer(TimerInfo),
    /// About a control log.
    Log(LogInfo),
    /// About a device.
    Device(DeviceInfo),
    /// An interrupt table entry to write.
    Entry(TableEntry),
    /// About a DMA grant.
    Dma(DmaGrantInfo),
}

/// What an operation comes to.
pub struct Answer {
    /// Status and auxiliary value.
    pub result: Result<u64, Status>,
    /// What the descriptor carries back, whatever the status.
    pub response: Response,
}

fn plain(result: Result<u64, Status>) -> (answer: Answer)
    ensures
        answer.result == result,
        answer.response is Nothing,
{
    Answer { result, response: Response::Nothing }
}

/// What an operation of this group did and answered.
pub open spec fn cap_performed(
    before: Machine,
    after: Machine,
    ctx: Ctx,
    request: Request,
    host: Host,
    answer: Answer,
) -> bool {
    match request {
        Request::CapInspect => {
            let info = answer.response->Cap_0;
            &&& answer.response is Cap
            &&& answer.result == Ok::<u64, Status>(info.rights as u64)
            &&& after == before
            &&& (info == before@.cap_info(ctx))
        },
        Request::CapDerive(request) => {
            let result = answer.result;
            &&& answer.response is Nothing
            &&& (match before@.derive_fault(ctx, request) {
            Some(code) => {
                &&& result == Err::<u64, Status>(code)
                &&& after@ == before@
            },
            None => {
                &&& after@ == before@.derived(ctx, request)
                &&& result == Ok::<u64, Status>(before@.minted_handle(ctx.domain as int))
            },
        })
        },
        Request::CapCopy => {
            let result = answer.result;
            &&& answer.response is Nothing
            &&& (({
            let m = before@;
            let d = ctx.domain as int;
            let slot = m.slot_for(d, None);
            if m.can_install(d, None) {
                &&& result == Ok::<u64, Status>(m.fresh_handle(d, slot))
                &&& after@ == m.install(d, slot, ctx.cap.object, ctx.cap.grant)
            } else {
                &&& result == Err::<u64, Status>(Status::LimitExhausted)
                &&& after@ == m
            }
        }))
        },
        Request::CapClose => {
            let result = answer.result;
            &&& answer.response is Nothing
            &&& (if cap_lookup(before@.caps, ctx.domain as int, ctx.handle) is Some {
            &&& result == Ok::<u64, Status>(0)
            &&& after@ == before@.release_slot(
                ctx.domain as int,
                crate::abi::slot_of(ctx.handle) as int,
            )
        } else {
            &&& result == Err::<u64, Status>(Status::InvalidHandle)
            &&& after@ == before@
        })
        },
        Request::CapFence => {
            let result = answer.result;
            &&& answer.response is Nothing
            &&& (after@ == before@.cap_fenced(ctx))
            &&& (result == Ok::<u64, Status>(
            before@.fenceable(ctx.cap.grant, MAX_GRANTS as int) as u64,
        ))
        },
        Request::CapDrainStatus => {
            let report = answer.response->Drain_0;
            &&& answer.response is Drain
            &&& answer.result == Ok::<u64, Status>(report.invocations_pending as u64)
            &&& after == before
            &&& (report == before@.lineage_report(ctx.cap.grant, ctx.now))
        },
        _ => false,
    }
}

/// What an operation of this group did and answered.
pub open spec fn scope_performed(
    before: Machine,
    after: Machine,
    ctx: Ctx,
    request: Request,
    host: Host,
    answer: Answer,
) -> bool {
    match request {
        Request::ScopeCreateChild(request) => {
            let result = answer.result;
            &&& answer.response is Nothing
            &&& (match before@.child_fault(ctx, request) {
            Some(code) => {
                &&& result == Err::<u64, Status>(code)
                &&& after@ == before@
            },
            None => {
                let (m, slot) = before@.scope_slot();
                if slot == MAX_SCOPES || !m.can_create(ctx.cap.object.index, ctx.domain as int) {
                    &&& result == Err::<u64, Status>(Status::LimitExhausted)
                    &&& after@ == m
                } else {
                    &&& result == Ok::<u64, Status>(m.minted_handle(ctx.domain as int))
                    &&& after@ == m.child_created(ctx, request, slot)
                }
            },
        })
        },
        Request::ScopeQuery => {
            let info = answer.response->Scope_0;
            &&& answer.response is Scope
            &&& answer.result == Ok::<u64, Status>(info.cpu_total_ns)
            &&& after == before
            &&& (info == before@.scope_info(ctx.cap.object.index as int, host.pending, ctx.now))
        },
        Request::ScopeSetLimits(request) => {
            let result = answer.result;
            &&& answer.response is Nothing
            &&& (match before@.limits_fault(ctx, request) {
            Some(code) => {
                &&& result == Err::<u64, Status>(code)
                &&& after@ == before@
            },
            None => {
                let i = ctx.cap.object.index as int;
                &&& result == Ok::<u64, Status>(0)
                &&& after@ == before@.with_scope(
                    i,
                    Scope { limits: limits_of(request), ..before@.scopes[i] },
                )
            },
        })
        },
        Request::ScopeFence => {
            let result = answer.result;
            &&& answer.response is Nothing
            &&& (after@ == before@.scope_fenced(ctx))
            &&& (result == Ok::<u64, Status>(
            open_within(
                before@.scopes,
                ctx.cap.object.index as int,
                MAX_SCOPES as int,
            ) as u64,
        ))
        },
        Request::ScopeDrainStatus => {
            let value = answer.response->Drain_0;
            &&& answer.response is Drain
            &&& answer.result == Ok::<u64, Status>((value.invocations_pending + value.effects_pending) as u64)
            &&& (after@ == before@.settled(ctx.now))
            &&& (value == after@.scope_report(ctx.cap.object.index as int))
        },
        Request::ScopeRetire => {
            &&& answer.response is Drain
            &&& {
            let report = answer.response->Drain_0;
            &&& (({
            let root = ctx.cap.object.index as int;
            let m = before@.settled(ctx.now);
            let state = m.scopes[root].state;
            &&& report == m.scope_report(root)
            &&& if state == State::Open {
                answer.result == Err::<u64, Status>(Status::StateConflict) && after@ == m
            } else if state == State::Fenced {
                answer.result == Err::<u64, Status>(Status::DrainIncomplete) && after@ == m
            } else if state == State::Retired {
                answer.result == Ok::<u64, Status>(0) && after@ == m
            } else {
                &&& answer.result == Ok::<u64, Status>(
                    m.sponsored_released(root).0.scopes[root].memory_pages,
                )
                &&& after@ == m.scope_retired(ctx)
            }
        }))
            }
        },
        Request::ScopeCreateMemory(request) => {
            let result = answer.result;
            &&& answer.response is Nothing
            &&& (match before@.memory_fault(ctx, request) {
            Some(code) => {
                &&& result == Err::<u64, Status>(code)
                &&& after@ == before@
            },
            None => {
                &&& after@ == before@.memory_created(ctx, request)
                &&& run_is_zero(
                    after.frames,
                    first_run(before@.uses, request.pages as int),
                    request.pages as int,
                )
                &&& result == Ok::<u64, Status>(before@.minted_handle(ctx.domain as int))
            },
        })
        },
        Request::ScopeCreateEndpoint(request) => {
            let result = answer.result;
            &&& answer.response is Nothing
            &&& (match before@.endpoint_fault(ctx, request) {
            Some(code) => {
                &&& result == Err::<u64, Status>(code)
                &&& after@ == before@
            },
            None => {
                &&& after@ == before@.endpoint_created(ctx, request)
                &&& result == Ok::<u64, Status>(before@.minted_handle(ctx.domain as int))
            },
        })
        },
        Request::ScopeCreateSignal => {
            let result = answer.result;
            &&& answer.response is Nothing
            &&& (match before@.signal_fault(ctx) {
            Some(code) => {
                &&& result == Err::<u64, Status>(code)
                &&& after@ == before@
            },
            None => {
                &&& after@ == before@.signal_created(ctx)
                &&& result == Ok::<u64, Status>(before@.minted_handle(ctx.domain as int))
            },
        })
        },
        Request::ScopeCreateTimer(request) => {
            let result = answer.result;
            &&& answer.response is Nothing
            &&& (match before@.timer_fault(ctx, request) {
            Some(code) => {
                &&& result == Err::<u64, Status>(code)
                &&& after@ == before@
            },
            None => {
                &&& after@ == before@.timer_created(ctx, request)
                &&& result == Ok::<u64, Status>(before@.minted_handle(ctx.domain as int))
            },
        })
        },
        _ => false,
    }
}

/// What an operation of this group did and answered.
pub open spec fn domain_performed(
    before: Machine,
    after: Machine,
    ctx: Ctx,
    request: Request,
    host: Host,
    answer: Answer,
) -> bool {
    match request {
        Request::DomainMap(request) => {
            let result = answer.result;
            &&& answer.response is Nothing
            &&& (match before@.map_fault(ctx, request) {
            Some(code) => {
                &&& result == Err::<u64, Status>(code)
                &&& after@ == before@
            },
            None => {
                let d = ctx.cap.object.index;
                &&& tables_grew(
                    before@.uses,
                    after@.uses,
                    Owner::Domain(d),
                )
                &&& match result {
                    Ok(pages) => {
                        &&& pages == request.page_count
                        &&& before@.is_clear(
                            before@.root_of(d as int),
                            request.vaddr,
                            request.page_count as int,
                        )
                        &&& after@ == (MachineModel {
                            uses: after@.uses,
                            ..before@.map_made(ctx, request)
                        })
                    },
                    Err(code) => {
                        &&& after@ == (MachineModel {
                            uses: after@.uses,
                            ..before@
                        })
                        &&& map_refused(before, ctx, request, code)
                    },
                }
            },
        })
        },
        Request::DomainInstallCap(request) => {
            let result = answer.result;
            &&& answer.response is Nothing
            &&& (match before@.install_fault(ctx, request) {
            Some(code) => {
                &&& result == Err::<u64, Status>(code)
                &&& after@ == before@
            },
            None => {
                &&& after@ == before@.cap_installed(ctx, request)
                &&& result == Ok::<u64, Status>(
                    before@.fresh_handle(
                        ctx.cap.object.index as int,
                        request.target_slot as int,
                    ),
                )
            },
        })
        },
        Request::DomainAddThread(request) => {
            let result = answer.result;
            &&& answer.response is Nothing
            &&& (kernel_took(before@.uses, after@.uses))
            &&& (({
            let m = before@;
            let d = ctx.cap.object.index as int;
            match m.add_thread_fault(ctx, request) {
                Some(code) => {
                    &&& result == Err::<u64, Status>(code)
                    &&& after@ == m
                },
                None => match result {
                    Err(code) => {
                        &&& code == Status::LimitExhausted
                        &&& exists|e: CreateError| stack_refused(before, e)
                        &&& after@ == (MachineModel { uses: after@.uses, ..m })
                    },
                    Ok(id) => {
                        &&& stack_is_mapped(
                            after,
                            first_kstack(m.kstacks, 0),
                            KSTACK_PAGES as int,
                        )
                        &&& stack_is_fresh(
                            m.uses,
                            after,
                            first_kstack(m.kstacks, 0),
                            KSTACK_PAGES as int,
                        )
                        &&& after@ == (MachineModel {
                            uses: after@.uses,
                            ..m.thread_added(
                                d,
                                request.entry,
                                request.stack_top,
                                request.argument,
                            )
                        })
                        &&& id == if m.next_id < u64::MAX {
                            m.next_id
                        } else {
                            0
                        }
                    },
                },
            }
        }))
        },
        Request::DomainSetFaultChannel(request) => {
            let result = answer.result;
            &&& answer.response is Nothing
            &&& (match before@.channel_fault(ctx, request) {
            Some(code) => {
                &&& result == Err::<u64, Status>(code)
                &&& after@ == before@
            },
            None => {
                &&& result == Ok::<u64, Status>(0)
                &&& after@ == before@.channel_installed(ctx, request)
            },
        })
        },
        Request::DomainActivate => {
            let result = answer.result;
            &&& answer.response is Nothing
            &&& (({
            let d = ctx.cap.object.index as int;
            if before@.activation_fault(d) is Some {
                &&& result == Err::<u64, Status>(Status::StateConflict)
                &&& after@ == before@
            } else {
                &&& result == Ok::<u64, Status>(before@.domains[d].id)
                &&& after@ == before@.activated(d)
            }
        }))
        },
        Request::DomainTerminate => {
            let result = answer.result;
            &&& answer.response is Nothing
            &&& (({
            let d = ctx.cap.object.index as int;
            let domain = before@.domains[d];
            if domain.state == DomainState::Building || domain.state == DomainState::Runnable {
                &&& result == Ok::<u64, Status>(domain.id)
                &&& after@ == before@.terminated(
                    d,
                    ExitReason::Terminated,
                    0,
                    host.cpu as int,
                    ctx.now,
                )
            } else {
                &&& result == Err::<u64, Status>(Status::StateConflict)
                &&& after@ == before@
            }
        }))
        },
        Request::DomainQuery => {
            let info = answer.response->Domain_0;
            &&& answer.response is Domain
            &&& answer.result == Ok::<u64, Status>(info.state as u64)
            &&& after == before
            &&& (info == before@.domain_info(ctx.cap.object.index as int))
        },
        _ => false,
    }
}

/// What an operation of this group did and answered.
pub open spec fn memory_performed(
    before: Machine,
    after: Machine,
    ctx: Ctx,
    request: Request,
    host: Host,
    answer: Answer,
) -> bool {
    match request {
        Request::MemoryQuery => {
            let info = answer.response->Memory_0;
            &&& answer.response is Memory
            &&& answer.result == Ok::<u64, Status>(info.pages)
            &&& after == before
            &&& (info == before@.memory_info(ctx.cap.object.index as int))
        },
        _ => false,
    }
}

/// What an operation of this group did and answered.
pub open spec fn endpoint_performed(
    before: Machine,
    after: Machine,
    ctx: Ctx,
    request: Request,
    host: Host,
    answer: Answer,
) -> bool {
    match request {
        Request::EndpointBindFacet(request) => {
            let result = answer.result;
            &&& answer.response is Nothing
            &&& (match before@.facet_fault(ctx, request) {
            Some(code) => {
                &&& result == Err::<u64, Status>(code)
                &&& after@ == before@
            },
            None => {
                &&& after@ == before@.facet_bound(ctx, request)
                &&& result == Ok::<u64, Status>(before@.minted_handle(ctx.domain as int))
            },
        })
        },
        Request::EndpointSend(request) => {
            let result = answer.result;
            &&& answer.response is Nothing
            &&& (match before@.admission_fault(ctx, request, message_kind::REQUEST) {
            Some(code) => {
                &&& result == Err::<u64, Status>(code)
                &&& after@ == before@
            },
            None => {
                &&& after@ == before@.admitted(
                    ctx,
                    request,
                    message_kind::REQUEST,
                    None,
                )
                &&& result == Ok::<u64, Status>(before@.next_id)
            },
        })
        },
        Request::EndpointQuery => {
            let info = answer.response->Endpoint_0;
            &&& answer.response is Endpoint
            &&& answer.result == Ok::<u64, Status>(info.queued as u64)
            &&& after == before
            &&& (({
            let endpoint = before@.endpoints[ctx.cap.object.index as int];
            info == EndpointInfo {
                queue_capacity: endpoint.capacity,
                queued: endpoint.queued,
                reserved_cells: endpoint.reserved_cells,
                facets: endpoint.facets,
                epoch: endpoint.epoch,
                object_id: endpoint.id,
                admitted: endpoint.admitted,
                delivered: endpoint.delivered,
            }
        }))
        },
        _ => false,
    }
}

/// What an operation of this group did and answered.
pub open spec fn invocation_performed(
    before: Machine,
    after: Machine,
    ctx: Ctx,
    request: Request,
    host: Host,
    answer: Answer,
) -> bool {
    match request {
        Request::InvocationReply(request) => {
            let result = answer.result;
            &&& answer.response is Nothing
            &&& (match before@.reply_fault(ctx, request) {
            Some(code) => {
                &&& result == Err::<u64, Status>(code)
                &&& after@ == before@
            },
            None => {
                let answer = after@.reply_of(ctx.cap.object.index as int);
                &&& after@ == before@.replied(ctx, request)
                &&& answer.payload == request.payload
                &&& answer.payload_len == request.payload_len
                &&& answer.result == request.result
                &&& answer.cap_count == request.cap_count
                &&& result == Ok::<u64, Status>(
                    before@.invocations[ctx.cap.object.index as int].id,
                )
            },
        })
        },
        Request::InvocationBeginEffect(request) => {
            let result = answer.result;
            &&& answer.response is Nothing
            &&& (({
            let m = before@;
            let i = ctx.cap.object.index as int;
            let barrier = m.effect_barrier(i, ctx.now);
            match m.effect_fault(ctx, request) {
                Some(code) => {
                    &&& result == Err::<u64, Status>(code)
                    &&& after@ == m
                },
                None => if barrier != Status::Success {
                    &&& result == Err::<u64, Status>(barrier)
                    &&& after@ == m.effect_refused(ctx, barrier)
                } else if !m.can_begin(ctx, request) {
                    &&& result == Err::<u64, Status>(Status::LimitExhausted)
                    &&& after@ == m
                } else {
                    &&& result == Ok::<u64, Status>(m.invocations[i].id)
                    &&& after@ == m.effect_begun(ctx, request)
                },
            }
        }))
        },
        Request::InvocationResolve(request) => {
            let result = answer.result;
            &&& answer.response is Nothing
            &&& (match before@.resolve_fault(ctx, request) {
            Some(code) => {
                &&& result == Err::<u64, Status>(code)
                &&& after@ == before@
            },
            None => {
                &&& after@ == before@.invocation_resolved(ctx, request)
                &&& result == Ok::<u64, Status>(
                    before@.invocations[ctx.cap.object.index as int].id,
                )
            },
        })
        },
        Request::InvocationQuery => {
            let info = answer.response->Invocation_0;
            &&& answer.response is Invocation
            &&& answer.result == Ok::<u64, Status>(info.cancel_state as u64)
            &&& after == before
            &&& (({
            let invocation = before@.invocations[ctx.cap.object.index as int];
            info == InvocationInfo {
                state: invocation.state.abi_spec(),
                cancel_state: invocation.cancel.abi_spec(),
                effect_state: invocation.effect.abi_spec(),
                invocation_id: invocation.id,
                origin_domain_id: invocation.origin_domain_id,
                origin_scope_id: invocation.origin_scope_id,
                facet: invocation.facet,
                grant_id: before@.grant_id(invocation.grant),
                admitted_ns: invocation.admitted_ns,
            }
        }))
        },
        Request::InvocationBindWorker => {
            let result = answer.result;
            &&& answer.response is Nothing
            &&& (match before@.bind_fault(ctx) {
            Some(code) => {
                &&& result == Err::<u64, Status>(code)
                &&& after@ == before@
            },
            None => {
                &&& after@ == before@.worker_bound(ctx)
                &&& result == Ok::<u64, Status>(
                    before@.invocations[ctx.cap.object.index as int].id,
                )
            },
        })
        },
        Request::InvocationUnbindWorker => {
            let result = answer.result;
            &&& answer.response is Nothing
            &&& (match before@.threads[ctx.thread as int].bound {
            None => {
                &&& result == Err::<u64, Status>(Status::StateConflict)
                &&& after@ == before@
            },
            Some((i, generation)) => {
                &&& result == Ok::<u64, Status>(0)
                &&& after@ == before@.worker_unbound(
                    ctx.thread as int,
                    i as int,
                    generation,
                )
            },
        })
        },
        _ => false,
    }
}

/// What an operation of this group did and answered.
pub open spec fn signal_performed(
    before: Machine,
    after: Machine,
    ctx: Ctx,
    request: Request,
    host: Host,
    answer: Answer,
) -> bool {
    match request {
        Request::SignalRaise(bits) => {
            let result = answer.result;
            &&& answer.response is Nothing
            &&& (({
            let m = before@;
            let i = ctx.cap.object.index as int;
            if bits == 0 {
                &&& result == Err::<u64, Status>(Status::InvalidArgument)
                &&& after@ == m
            } else {
                &&& after@ == m.raised(i, m.signals[i].generation, bits)
                &&& result == Ok::<u64, Status>(after@.signals[i].sequence)
            }
        }))
        },
        Request::SignalQuery => {
            let info = answer.response->Signal_0;
            &&& answer.response is Signal
            &&& answer.result == Ok::<u64, Status>(info.bits)
            &&& after == before
            &&& (info == before@.signal_info(
            ctx.cap.object.index as int,
            before@.signals[ctx.cap.object.index as int].bits,
        ))
        },
        _ => false,
    }
}

/// What an operation of this group did and answered.
pub open spec fn timer_performed(
    before: Machine,
    after: Machine,
    ctx: Ctx,
    request: Request,
    host: Host,
    answer: Answer,
) -> bool {
    match request {
        Request::TimerArm(deadline_ns) => {
            let result = answer.result;
            &&& answer.response is Nothing
            &&& (({
            let i = ctx.cap.object.index as int;
            if deadline_ns == 0 {
                &&& result == Err::<u64, Status>(Status::InvalidArgument)
                &&& after@ == before@
            } else {
                &&& result == Ok::<u64, Status>(deadline_ns)
                &&& after@ == before@.with_timer(
                    i,
                    Timer { deadline_ns, armed: true, ..before@.timers[i] },
                )
            }
        }))
        },
        Request::TimerCancel => {
            let result = answer.result;
            &&& answer.response is Nothing
            &&& (result == Ok::<u64, Status>(0))
            &&& (after@ == before@.with_timer(
            ctx.cap.object.index as int,
            Timer {
                armed: false,
                deadline_ns: 0,
                ..before@.timers[ctx.cap.object.index as int]
            },
        ))
        },
        Request::TimerQuery => {
            let info = answer.response->Timer_0;
            &&& answer.response is Timer
            &&& answer.result == Ok::<u64, Status>(info.fired)
            &&& after == before
            &&& (({
            let timer = before@.timers[ctx.cap.object.index as int];
            info == TimerInfo {
                armed: if timer.armed {
                    1
                } else {
                    0
                },
                deadline_ns: timer.deadline_ns,
                fired: timer.fired,
                object_id: timer.id,
            }
        }))
        },
        _ => false,
    }
}

/// What an operation of this group did and answered.
pub open spec fn log_performed(
    before: Machine,
    after: Machine,
    ctx: Ctx,
    request: Request,
    host: Host,
    answer: Answer,
) -> bool {
    match request {
        Request::LogAppend(request) => {
            let result = answer.result;
            &&& answer.response is Nothing
            &&& (({
            let m = before@;
            let sequence = m.receipt_sequence(receipt_kind::SERVICE_NOTE, false);
            if request.reserved0 != 0 {
                &&& result == Err::<u64, Status>(Status::InvalidArgument)
                &&& after@ == m
            } else {
                &&& after@ == m.receipted(m.note_of(ctx, request), ctx.now, false)
                &&& result == if sequence == 0 {
                    Err::<u64, Status>(Status::LimitExhausted)
                } else {
                    Ok::<u64, Status>(sequence)
                }
            }
        }))
        },
        Request::LogAck(through) => {
            let dropped = answer.result->Ok_0;
            &&& answer.result is Ok
            &&& answer.response is Nothing
            &&& (({
            let l = ctx.cap.object.index as int;
            let log = before@.logs[l];
            &&& dropped == acknowledged(log.live, through)
            &&& after@ == before@.with_log(
                l,
                LogModel { live: log.live.skip(dropped as int), ..log },
            )
        }))
        },
        Request::LogQuery => {
            let info = answer.response->Log_0;
            &&& answer.response is Log
            &&& answer.result == Ok::<u64, Status>(info.used as u64)
            &&& after == before
            &&& (({
            let log = before@.logs[ctx.cap.object.index as int];
            info == LogInfo {
                capacity: CONTROL_LOG_CAPACITY as u32,
                reserved_cells: CONTROL_LOG_RESERVED as u32,
                used: log.live.len() as u32,
                lost: log.lost,
                next_sequence: log.next_sequence,
                oldest_sequence: if log.live.len() == 0 {
                    log.next_sequence
                } else {
                    log.live[0].sequence
                },
                object_id: log.id,
            }
        }))
        },
        _ => false,
    }
}

/// What an operation of this group did and answered.
pub open spec fn device_performed(
    before: Machine,
    after: Machine,
    ctx: Ctx,
    request: Request,
    host: Host,
    answer: Answer,
) -> bool {
    match request {
        Request::DeviceQuery => {
            let info = answer.response->Device_0;
            &&& answer.response is Device
            &&& answer.result == Ok::<u64, Status>(info.session as u64)
            &&& after == before
            &&& (info == before@.device_info(ctx.cap.object.index as int))
        },
        Request::DeviceMapRegion(request) => {
            let result = answer.result;
            &&& answer.response is Nothing
            &&& (match before@.region_fault(ctx, request) {
            Some(code) => {
                &&& result == Err::<u64, Status>(code)
                &&& after@ == before@
            },
            None => {
                let d = before@.region_target(ctx, request)->Ok_0.object.index;
                let i = ctx.cap.object.index as int;
                let region = before@.devices[i].regions@[request.region_index as int];
                &&& tables_grew(before@.uses, after@.uses, Owner::Domain(d))
                &&& match result {
                    Ok(pages) => {
                        &&& pages == region.length / 0x1000
                        &&& after@ == (MachineModel {
                            uses: after@.uses,
                            ..before@.region_mapped(ctx, request)
                        })
                    },
                    Err(code) => {
                        &&& code == Status::StateConflict
                        &&& after@ == (MachineModel {
                            uses: after@.uses,
                            ..before@
                        })
                        &&& region_refused(before, ctx, request)
                    },
                }
            },
        })
        },
        Request::DeviceBindIrq(request) => {
            let result = if answer.response is Entry {
                Ok::<(u64, TableEntry), Status>((answer.result->Ok_0, answer.response->Entry_0))
            } else {
                Err::<(u64, TableEntry), Status>(answer.result->Err_0)
            };
            &&& answer.response is Entry || answer.response is Nothing
            &&& answer.response is Entry <==> answer.result is Ok
            &&& (match before@.irq_fault(ctx, request) {
            Some(code) => {
                &&& result == Err::<(u64, TableEntry), Status>(code)
                &&& after@ == before@
            },
            None => {
                let vector = free_vector(before@.irqs, DEVICE_VECTOR_BASE as int)->0;
                &&& after@ == before@.irq_bound(ctx, request)
                &&& result == Ok::<(u64, TableEntry), Status>(
                    (
                        vector as u64,
                        TableEntry {
                            table: before@.devices[ctx.cap.object.index as int].msix_table,
                            entry: request.vector_index as u16,
                            address: INTERRUPT_ADDRESS_BASE | (host.destination as u64) << 12,
                            data: vector as u32,
                        },
                    ),
                )
            },
        })
        },
        Request::DeviceDmaMap(request) => {
            let result = if answer.response is Dma {
                Ok::<DmaGrantInfo, Status>(answer.response->Dma_0)
            } else {
                Err::<DmaGrantInfo, Status>(answer.result->Err_0)
            };
            &&& answer.response is Dma || answer.response is Nothing
            &&& answer.response is Dma <==> answer.result is Ok
            &&& answer.result is Ok ==> answer.result->Ok_0 == answer.response->Dma_0.iova
            &&& (match before@.dma_fault(ctx, request) {
            Some(code) => {
                &&& result == Err::<DmaGrantInfo, Status>(code)
                &&& after@ == before@
            },
            None => {
                &&& result == Ok::<DmaGrantInfo, Status>(
                    before@.dma_info(ctx, request),
                )
                &&& after@ == before@.dma_mapped(ctx, request)
            },
        })
        },
        Request::DeviceDmaUnmap(request) => {
            let result = answer.result;
            &&& answer.response is Nothing
            &&& (match before@.revoke_fault(ctx, request) {
            Some(code) => {
                &&& result == Err::<u64, Status>(code)
                &&& after@ == before@
            },
            None => {
                let k = before@.named_grant(
                    0,
                    ctx.cap.object.index as int,
                    request.iova,
                );
                &&& result == Ok::<u64, Status>(before@.dma_grants[k].pages as u64)
                &&& after@ == before@.grant_revoked(k)
            },
        })
        },
        _ => false,
    }
}

/// What an operation did and answered.
pub open spec fn performed(
    before: Machine,
    after: Machine,
    ctx: Ctx,
    request: Request,
    host: Host,
    answer: Answer,
) -> bool {
    let group = op_type_of(request.code());
    if group == 0 {
        cap_performed(before, after, ctx, request, host, answer)
    }     else if group == 1 {
        scope_performed(before, after, ctx, request, host, answer)
    }     else if group == 2 {
        domain_performed(before, after, ctx, request, host, answer)
    }     else if group == 3 {
        memory_performed(before, after, ctx, request, host, answer)
    }     else if group == 4 {
        endpoint_performed(before, after, ctx, request, host, answer)
    }     else if group == 5 {
        invocation_performed(before, after, ctx, request, host, answer)
    }     else if group == 6 {
        signal_performed(before, after, ctx, request, host, answer)
    }     else if group == 7 {
        timer_performed(before, after, ctx, request, host, answer)
    }     else if group == 8 {
        log_performed(before, after, ctx, request, host, answer)
    } else {
        device_performed(before, after, ctx, request, host, answer)
    }
}

fn cap_simple(machine: &mut Machine, ctx: &Ctx, request: &Request, host: &Host) -> (answer: Answer)
    requires
        old(machine).wf(),
        old(machine)@.kernel_space is Some,
        op_type_of(request.code()) == 0,
        any_ctx_ok(*ctx),
    ensures
        final(machine).wf(),
        cap_performed(*old(machine), *final(machine), *ctx, *request, *host, answer),
{
    match request {
        Request::CapInspect => {
            let info = capops::inspect(machine, ctx);
            Answer { result: Ok(info.rights as u64), response: Response::Cap(info) }
        },
        Request::CapDerive(request) => plain(capops::derive(machine, ctx, request)),
        Request::CapCopy => plain(capops::copy(machine, ctx)),
        Request::CapClose => plain(capops::close(machine, ctx)),
        Request::CapFence => plain(capops::fence(machine, ctx)),
        Request::CapDrainStatus => {
            let info = capops::drain_status(machine, ctx);
            Answer { result: Ok(info.invocations_pending as u64), response: Response::Drain(info) }
        },
        _ => plain(Err(Status::NotSupported)),
    }
}

fn scope_simple(machine: &mut Machine, ctx: &Ctx, request: &Request, host: &Host) -> (answer: Answer)
    requires
        old(machine).wf(),
        old(machine)@.kernel_space is Some,
        op_type_of(request.code()) == 1,
        ctx_ok(*ctx, ObjKind::Scope),
    ensures
        final(machine).wf(),
        scope_performed(*old(machine), *final(machine), *ctx, *request, *host, answer),
{
    match request {
        Request::ScopeCreateChild(request) => plain(scopeops::create_child(machine, ctx, request)),
        Request::ScopeQuery => {
            let info = scopeops::query(machine, ctx, host.pending);
            Answer { result: Ok(info.cpu_total_ns), response: Response::Scope(info) }
        },
        Request::ScopeSetLimits(request) => plain(scopeops::set_limits(machine, ctx, request)),
        Request::ScopeFence => plain(scopeops::fence(machine, ctx)),
        Request::ScopeDrainStatus => {
            let info = scopeops::drain_status(machine, ctx);
            Answer { result: Ok(info.invocations_pending as u64 + info.effects_pending as u64), response: Response::Drain(info) }
        },
        Request::ScopeRetire => {
            let (report, result) = scopeops::retire(machine, ctx);
            Answer { result, response: Response::Drain(report) }
        },
        Request::ScopeCreateMemory(request) => plain(memops::create(machine, ctx, request)),
        Request::ScopeCreateEndpoint(request) => plain(ipcops::create_endpoint(machine, ctx, request)),
        Request::ScopeCreateSignal => plain(evtops::create_signal(machine, ctx)),
        Request::ScopeCreateTimer(request) => plain(evtops::create_timer(machine, ctx, request)),
        _ => plain(Err(Status::NotSupported)),
    }
}

fn domain_simple(machine: &mut Machine, ctx: &Ctx, request: &Request, host: &Host) -> (answer: Answer)
    requires
        old(machine).wf(),
        old(machine)@.kernel_space is Some,
        op_type_of(request.code()) == 2,
        ctx_ok(*ctx, ObjKind::Domain),
    ensures
        final(machine).wf(),
        domain_performed(*old(machine), *final(machine), *ctx, *request, *host, answer),
{
    match request {
        Request::DomainMap(request) => plain(domainops::map(machine, ctx, request)),
        Request::DomainInstallCap(request) => plain(domainops::install_cap(machine, ctx, request)),
        Request::DomainAddThread(request) => plain(domainops::add_thread(machine, ctx, request)),
        Request::DomainSetFaultChannel(request) => plain(domainops::set_fault_channel(machine, ctx, request)),
        Request::DomainActivate => plain(domainops::activate(machine, ctx)),
        Request::DomainTerminate => plain(domainops::terminate(machine, ctx, host.cpu)),
        Request::DomainQuery => {
            let info = domainops::query(machine, ctx);
            Answer { result: Ok(info.state as u64), response: Response::Domain(info) }
        },
        _ => plain(Err(Status::NotSupported)),
    }
}

fn memory_simple(machine: &mut Machine, ctx: &Ctx, request: &Request, host: &Host) -> (answer: Answer)
    requires
        old(machine).wf(),
        old(machine)@.kernel_space is Some,
        op_type_of(request.code()) == 3,
        ctx_ok(*ctx, ObjKind::Memory),
    ensures
        final(machine).wf(),
        memory_performed(*old(machine), *final(machine), *ctx, *request, *host, answer),
{
    match request {
        Request::MemoryQuery => {
            let info = memops::query(machine, ctx);
            Answer { result: Ok(info.pages), response: Response::Memory(info) }
        },
        _ => plain(Err(Status::NotSupported)),
    }
}

fn endpoint_simple(machine: &mut Machine, ctx: &Ctx, request: &Request, host: &Host) -> (answer: Answer)
    requires
        old(machine).wf(),
        old(machine)@.kernel_space is Some,
        op_type_of(request.code()) == 4,
        ctx_ok(*ctx, ObjKind::Endpoint),
    ensures
        final(machine).wf(),
        endpoint_performed(*old(machine), *final(machine), *ctx, *request, *host, answer),
{
    match request {
        Request::EndpointBindFacet(request) => plain(ipcops::bind_facet(machine, ctx, request)),
        Request::EndpointSend(request) => plain(ipcops::send(machine, ctx, request)),
        Request::EndpointQuery => {
            let info = obligations::query_endpoint(machine, ctx);
            Answer { result: Ok(info.queued as u64), response: Response::Endpoint(info) }
        },
        _ => plain(Err(Status::NotSupported)),
    }
}

fn invocation_simple(machine: &mut Machine, ctx: &Ctx, request: &Request, host: &Host) -> (answer: Answer)
    requires
        old(machine).wf(),
        old(machine)@.kernel_space is Some,
        op_type_of(request.code()) == 5,
        ctx_ok(*ctx, ObjKind::Invocation),
    ensures
        final(machine).wf(),
        invocation_performed(*old(machine), *final(machine), *ctx, *request, *host, answer),
{
    match request {
        Request::InvocationReply(request) => plain(obligations::reply(machine, ctx, request)),
        Request::InvocationBeginEffect(request) => plain(obligations::begin_effect(machine, ctx, request)),
        Request::InvocationResolve(request) => plain(obligations::resolve_invocation(machine, ctx, request)),
        Request::InvocationQuery => {
            let info = obligations::query_invocation(machine, ctx);
            Answer { result: Ok(info.cancel_state as u64), response: Response::Invocation(info) }
        },
        Request::InvocationBindWorker => plain(obligations::bind_worker(machine, ctx)),
        Request::InvocationUnbindWorker => plain(obligations::unbind_worker(machine, ctx.thread)),
        _ => plain(Err(Status::NotSupported)),
    }
}

fn signal_simple(machine: &mut Machine, ctx: &Ctx, request: &Request, host: &Host) -> (answer: Answer)
    requires
        old(machine).wf(),
        old(machine)@.kernel_space is Some,
        op_type_of(request.code()) == 6,
        ctx_ok(*ctx, ObjKind::Signal),
    ensures
        final(machine).wf(),
        signal_performed(*old(machine), *final(machine), *ctx, *request, *host, answer),
{
    match request {
        Request::SignalRaise(bits) => plain(evtops::raise(machine, ctx, *bits)),
        Request::SignalQuery => {
            let info = evtops::query_signal(machine, ctx);
            Answer { result: Ok(info.bits), response: Response::Signal(info) }
        },
        _ => plain(Err(Status::NotSupported)),
    }
}

fn timer_simple(machine: &mut Machine, ctx: &Ctx, request: &Request, host: &Host) -> (answer: Answer)
    requires
        old(machine).wf(),
        old(machine)@.kernel_space is Some,
        op_type_of(request.code()) == 7,
        ctx_ok(*ctx, ObjKind::Timer),
    ensures
        final(machine).wf(),
        timer_performed(*old(machine), *final(machine), *ctx, *request, *host, answer),
{
    match request {
        Request::TimerArm(deadline_ns) => plain(evtops::arm(machine, ctx, *deadline_ns)),
        Request::TimerCancel => plain(evtops::cancel(machine, ctx)),
        Request::TimerQuery => {
            let info = evtops::query_timer(machine, ctx);
            Answer { result: Ok(info.fired), response: Response::Timer(info) }
        },
        _ => plain(Err(Status::NotSupported)),
    }
}

fn log_simple(machine: &mut Machine, ctx: &Ctx, request: &Request, host: &Host) -> (answer: Answer)
    requires
        old(machine).wf(),
        old(machine)@.kernel_space is Some,
        op_type_of(request.code()) == 8,
        ctx_ok(*ctx, ObjKind::ControlLog),
    ensures
        final(machine).wf(),
        log_performed(*old(machine), *final(machine), *ctx, *request, *host, answer),
{
    match request {
        Request::LogAppend(request) => plain(logops::append(machine, ctx, request)),
        Request::LogAck(through) => plain(Ok(logops::acknowledge(machine, ctx, *through))),
        Request::LogQuery => {
            let info = logops::query(machine, ctx);
            Answer { result: Ok(info.used as u64), response: Response::Log(info) }
        },
        _ => plain(Err(Status::NotSupported)),
    }
}

fn device_simple(machine: &mut Machine, ctx: &Ctx, request: &Request, host: &Host) -> (answer: Answer)
    requires
        old(machine).wf(),
        old(machine)@.kernel_space is Some,
        op_type_of(request.code()) == 9,
        ctx_ok(*ctx, ObjKind::Device),
    ensures
        final(machine).wf(),
        device_performed(*old(machine), *final(machine), *ctx, *request, *host, answer),
{
    match request {
        Request::DeviceQuery => {
            let info = devops::query(machine, ctx);
            Answer { result: Ok(info.session as u64), response: Response::Device(info) }
        },
        Request::DeviceMapRegion(request) => plain(devops::map_region(machine, ctx, request)),
        Request::DeviceBindIrq(request) => match devops::bind_irq(machine, ctx, request, host.destination) {
            Ok((vector, entry)) => Answer { result: Ok(vector), response: Response::Entry(entry) },
            Err(code) => plain(Err(code)),
        },
        Request::DeviceDmaMap(request) => match devops::dma_map(machine, ctx, request) {
            Ok(info) => Answer { result: Ok(info.iova), response: Response::Dma(info) },
            Err(code) => plain(Err(code)),
        },
        Request::DeviceDmaUnmap(request) => plain(devops::dma_unmap(machine, ctx, request)),
        _ => plain(Err(Status::NotSupported)),
    }
}

/// Runs the operations that complete without waiting and touch neither a
/// domain's bytes nor a device's registers.
pub fn simple(machine: &mut Machine, ctx: &Ctx, request: &Request, host: &Host) -> (answer: Answer)
    requires
        old(machine).wf(),
        old(machine)@.kernel_space is Some,
        is_for(*ctx, op_type_of(request.code())),
    ensures
        final(machine).wf(),
        performed(*old(machine), *final(machine), *ctx, *request, *host, answer),
{
    match op_type(request.operation()) {
        0 => cap_simple(machine, ctx, request, host),
        1 => scope_simple(machine, ctx, request, host),
        2 => domain_simple(machine, ctx, request, host),
        3 => memory_simple(machine, ctx, request, host),
        4 => endpoint_simple(machine, ctx, request, host),
        5 => invocation_simple(machine, ctx, request, host),
        6 => signal_simple(machine, ctx, request, host),
        7 => timer_simple(machine, ctx, request, host),
        8 => log_simple(machine, ctx, request, host),
        _ => device_simple(machine, ctx, request, host),
    }
}

/// The request a descriptor holds, for an operation that completes without
/// waiting and touches neither a domain's bytes nor a device's registers.
pub open spec fn decoded(operation: u32, bytes: Seq<u8>) -> Option<Request> {
    match operation {
        op::CAP_INSPECT => Some(Request::CapInspect),
        op::CAP_DERIVE => Some(Request::CapDerive(wire::derive_request_in(bytes, 32))),
        op::CAP_COPY => Some(Request::CapCopy),
        op::CAP_CLOSE => Some(Request::CapClose),
        op::CAP_FENCE => Some(Request::CapFence),
        op::CAP_DRAIN_STATUS => Some(Request::CapDrainStatus),
        op::SCOPE_CREATE_CHILD => Some(Request::ScopeCreateChild(wire::scope_create_request_in(bytes, 32))),
        op::SCOPE_QUERY => Some(Request::ScopeQuery),
        op::SCOPE_SET_LIMITS => Some(Request::ScopeSetLimits(wire::scope_limits_in(bytes, 32))),
        op::SCOPE_FENCE => Some(Request::ScopeFence),
        op::SCOPE_DRAIN_STATUS => Some(Request::ScopeDrainStatus),
        op::SCOPE_RETIRE => Some(Request::ScopeRetire),
        op::SCOPE_CREATE_MEMORY => Some(Request::ScopeCreateMemory(wire::memory_create_request_in(bytes, 32))),
        op::SCOPE_CREATE_ENDPOINT => Some(Request::ScopeCreateEndpoint(wire::endpoint_create_request_in(bytes, 32))),
        op::SCOPE_CREATE_SIGNAL => Some(Request::ScopeCreateSignal),
        op::SCOPE_CREATE_TIMER => Some(Request::ScopeCreateTimer(wire::timer_create_request_in(bytes, 32))),
        op::DOMAIN_MAP => Some(Request::DomainMap(wire::map_request_in(bytes, 32))),
        op::DOMAIN_INSTALL_CAP => Some(Request::DomainInstallCap(wire::install_cap_request_in(bytes, 32))),
        op::DOMAIN_ADD_THREAD => Some(Request::DomainAddThread(wire::thread_create_request_in(bytes, 32))),
        op::DOMAIN_SET_FAULT_CHANNEL => Some(Request::DomainSetFaultChannel(wire::fault_channel_request_in(bytes, 32))),
        op::DOMAIN_ACTIVATE => Some(Request::DomainActivate),
        op::DOMAIN_TERMINATE => Some(Request::DomainTerminate),
        op::DOMAIN_QUERY => Some(Request::DomainQuery),
        op::MEMORY_QUERY => Some(Request::MemoryQuery),
        op::ENDPOINT_BIND_FACET => Some(Request::EndpointBindFacet(wire::bind_facet_request_in(bytes, 32))),
        op::ENDPOINT_SEND => Some(Request::EndpointSend(wire::send_request_in(bytes, 32))),
        op::ENDPOINT_QUERY => Some(Request::EndpointQuery),
        op::INVOCATION_REPLY => Some(Request::InvocationReply(wire::reply_request_in(bytes, 32))),
        op::INVOCATION_BEGIN_EFFECT => Some(Request::InvocationBeginEffect(wire::effect_request_in(bytes, 32))),
        op::INVOCATION_RESOLVE => Some(Request::InvocationResolve(wire::resolve_request_in(bytes, 32))),
        op::INVOCATION_QUERY => Some(Request::InvocationQuery),
        op::INVOCATION_BIND_WORKER => Some(Request::InvocationBindWorker),
        op::INVOCATION_UNBIND_WORKER => Some(Request::InvocationUnbindWorker),
        op::SIGNAL_RAISE => Some(Request::SignalRaise(le(bytes, 32, 8) as u64)),
        op::SIGNAL_QUERY => Some(Request::SignalQuery),
        op::TIMER_ARM => Some(Request::TimerArm(le(bytes, 32, 8) as u64)),
        op::TIMER_CANCEL => Some(Request::TimerCancel),
        op::TIMER_QUERY => Some(Request::TimerQuery),
        op::LOG_APPEND => Some(Request::LogAppend(wire::log_append_request_in(bytes, 32))),
        op::LOG_ACK => Some(Request::LogAck(le(bytes, 32, 8) as u64)),
        op::LOG_QUERY => Some(Request::LogQuery),
        op::DEVICE_QUERY => Some(Request::DeviceQuery),
        op::DEVICE_MAP_REGION => Some(Request::DeviceMapRegion(wire::device_map_request_in(bytes, 32))),
        op::DEVICE_BIND_IRQ => Some(Request::DeviceBindIrq(wire::device_irq_request_in(bytes, 32))),
        op::DEVICE_DMA_MAP => Some(Request::DeviceDmaMap(wire::dma_map_request_in(bytes, 32))),
        op::DEVICE_DMA_UNMAP => Some(Request::DeviceDmaUnmap(wire::dma_unmap_request_in(bytes, 32))),
        _ => None,
    }
}

/// Reads the request a descriptor holds.
pub fn decode(operation: u32, bytes: &[u8]) -> (request: Option<Request>)
    requires
        bytes@.len() == descriptor_of(operation),
    ensures
        request == decoded(operation, bytes@),
{
    match operation {
        op::CAP_INSPECT => Some(Request::CapInspect),
        op::CAP_DERIVE => Some(Request::CapDerive(wire::read_derive_request(bytes, 32))),
        op::CAP_COPY => Some(Request::CapCopy),
        op::CAP_CLOSE => Some(Request::CapClose),
        op::CAP_FENCE => Some(Request::CapFence),
        op::CAP_DRAIN_STATUS => Some(Request::CapDrainStatus),
        op::SCOPE_CREATE_CHILD => Some(Request::ScopeCreateChild(wire::read_scope_create_request(bytes, 32))),
        op::SCOPE_QUERY => Some(Request::ScopeQuery),
        op::SCOPE_SET_LIMITS => Some(Request::ScopeSetLimits(wire::read_scope_limits(bytes, 32))),
        op::SCOPE_FENCE => Some(Request::ScopeFence),
        op::SCOPE_DRAIN_STATUS => Some(Request::ScopeDrainStatus),
        op::SCOPE_RETIRE => Some(Request::ScopeRetire),
        op::SCOPE_CREATE_MEMORY => Some(Request::ScopeCreateMemory(wire::read_memory_create_request(bytes, 32))),
        op::SCOPE_CREATE_ENDPOINT => Some(Request::ScopeCreateEndpoint(wire::read_endpoint_create_request(bytes, 32))),
        op::SCOPE_CREATE_SIGNAL => Some(Request::ScopeCreateSignal),
        op::SCOPE_CREATE_TIMER => Some(Request::ScopeCreateTimer(wire::read_timer_create_request(bytes, 32))),
        op::DOMAIN_MAP => Some(Request::DomainMap(wire::read_map_request(bytes, 32))),
        op::DOMAIN_INSTALL_CAP => Some(Request::DomainInstallCap(wire::read_install_cap_request(bytes, 32))),
        op::DOMAIN_ADD_THREAD => Some(Request::DomainAddThread(wire::read_thread_create_request(bytes, 32))),
        op::DOMAIN_SET_FAULT_CHANNEL => Some(Request::DomainSetFaultChannel(wire::read_fault_channel_request(bytes, 32))),
        op::DOMAIN_ACTIVATE => Some(Request::DomainActivate),
        op::DOMAIN_TERMINATE => Some(Request::DomainTerminate),
        op::DOMAIN_QUERY => Some(Request::DomainQuery),
        op::MEMORY_QUERY => Some(Request::MemoryQuery),
        op::ENDPOINT_BIND_FACET => Some(Request::EndpointBindFacet(wire::read_bind_facet_request(bytes, 32))),
        op::ENDPOINT_SEND => Some(Request::EndpointSend(wire::read_send_request(bytes, 32))),
        op::ENDPOINT_QUERY => Some(Request::EndpointQuery),
        op::INVOCATION_REPLY => Some(Request::InvocationReply(wire::read_reply_request(bytes, 32))),
        op::INVOCATION_BEGIN_EFFECT => Some(Request::InvocationBeginEffect(wire::read_effect_request(bytes, 32))),
        op::INVOCATION_RESOLVE => Some(Request::InvocationResolve(wire::read_resolve_request(bytes, 32))),
        op::INVOCATION_QUERY => Some(Request::InvocationQuery),
        op::INVOCATION_BIND_WORKER => Some(Request::InvocationBindWorker),
        op::INVOCATION_UNBIND_WORKER => Some(Request::InvocationUnbindWorker),
        op::SIGNAL_RAISE => Some(Request::SignalRaise(double_word(bytes, 32))),
        op::SIGNAL_QUERY => Some(Request::SignalQuery),
        op::TIMER_ARM => Some(Request::TimerArm(double_word(bytes, 32))),
        op::TIMER_CANCEL => Some(Request::TimerCancel),
        op::TIMER_QUERY => Some(Request::TimerQuery),
        op::LOG_APPEND => Some(Request::LogAppend(wire::read_log_append_request(bytes, 32))),
        op::LOG_ACK => Some(Request::LogAck(double_word(bytes, 32))),
        op::LOG_QUERY => Some(Request::LogQuery),
        op::DEVICE_QUERY => Some(Request::DeviceQuery),
        op::DEVICE_MAP_REGION => Some(Request::DeviceMapRegion(wire::read_device_map_request(bytes, 32))),
        op::DEVICE_BIND_IRQ => Some(Request::DeviceBindIrq(wire::read_device_irq_request(bytes, 32))),
        op::DEVICE_DMA_MAP => Some(Request::DeviceDmaMap(wire::read_dma_map_request(bytes, 32))),
        op::DEVICE_DMA_UNMAP => Some(Request::DeviceDmaUnmap(wire::read_dma_unmap_request(bytes, 32))),
        _ => None,
    }
}

/// What a descriptor carries back, as bytes.
pub open spec fn response_bytes(response: Response) -> Seq<u8> {
    match response {
        Response::Nothing | Response::Entry(_) => Seq::empty(),
        Response::Cap(info) => wire::cap_info_bytes(info),
        Response::Drain(info) => wire::drain_report_bytes(info),
        Response::Scope(info) => wire::scope_info_bytes(info),
        Response::Domain(info) => wire::domain_info_bytes(info),
        Response::Memory(info) => wire::memory_info_bytes(info),
        Response::Endpoint(info) => wire::endpoint_info_bytes(info),
        Response::Invocation(info) => wire::invocation_info_bytes(info),
        Response::Signal(info) => wire::signal_info_bytes(info),
        Response::Timer(info) => wire::timer_info_bytes(info),
        Response::Log(info) => wire::log_info_bytes(info),
        Response::Device(info) => wire::device_info_bytes(info),
        Response::Dma(info) => wire::dma_grant_info_bytes(info),
    }
}

fn encode(response: &Response) -> (bytes: Vec<u8>)
    ensures
        bytes@ == response_bytes(*response),
{
    let mut bytes: Vec<u8> = Vec::new();
    match response {
        Response::Nothing | Response::Entry(_) => {},
        Response::Cap(info) => {
            wire::push_cap_info(&mut bytes, info);
        },
        Response::Drain(info) => {
            wire::push_drain_report(&mut bytes, info);
        },
        Response::Scope(info) => {
            wire::push_scope_info(&mut bytes, info);
        },
        Response::Domain(info) => {
            wire::push_domain_info(&mut bytes, info);
        },
        Response::Memory(info) => {
            wire::push_memory_info(&mut bytes, info);
        },
        Response::Endpoint(info) => {
            wire::push_endpoint_info(&mut bytes, info);
        },
        Response::Invocation(info) => {
            wire::push_invocation_info(&mut bytes, info);
        },
        Response::Signal(info) => {
            wire::push_signal_info(&mut bytes, info);
        },
        Response::Timer(info) => {
            wire::push_timer_info(&mut bytes, info);
        },
        Response::Log(info) => {
            wire::push_log_info(&mut bytes, info);
        },
        Response::Device(info) => {
            wire::push_device_info(&mut bytes, info);
        },
        Response::Dma(info) => {
            wire::push_dma_grant_info(&mut bytes, info);
        },
    }
    assert(bytes@ =~= response_bytes(*response));
    bytes
}

/// A descriptor that carries an answer back: the kernel's header, the answer,
/// and zeros behind it.
pub open spec fn answered(operation: u32, request: Seq<u8>, answer: Seq<u8>) -> Seq<u8> {
    header_bytes(answer_header(operation, header_in(request).cookie)) + Seq::new(
        (descriptor_of(operation) - BODY) as nat,
        |i: int|
            if i < answer.len() {
                answer[i]
            } else {
                0u8
            },
    )
}

/// Writes an answer over a descriptor.
pub fn write_response(staging: &mut Staging, operation: u32, answer: &[u8])
    requires
        is_assigned(operation),
        descriptor_of(operation) != 0,
        old(staging).bytes@.len() == descriptor_of(operation),
    ensures
        final(staging).filled,
        final(staging).bytes@ == answered(operation, old(staging).bytes@, answer@),
{
    proof {
        descriptors_hold_a_header(operation);
    }
    begin_response(staging, operation);
    let ghost blank = staging.bytes@;
    let ghost head = header_bytes(answer_header(operation, header_in(old(staging).bytes@).cookie));
    proof {
        header_is_its_length(answer_header(operation, header_in(old(staging).bytes@).cookie));
    }
    let len: usize = staging.bytes.len();
    for i in BODY..len
        invariant
            BODY <= i <= len,
            len == blank.len(),
            staging.filled,
            staging.bytes@.len() == len,
            forall|k: int|
                0 <= k < len ==> #[trigger] staging.bytes@[k] == if BODY <= k < i && k - BODY
                    < answer@.len() {
                    answer@[k - BODY]
                } else {
                    blank[k]
                },
    {
        if i - BODY < answer.len() {
            staging.bytes.set(i, answer[i - BODY]);
        }
    }
    assert(staging.bytes@ =~= answered(operation, old(staging).bytes@, answer@));
}

proof fn header_is_its_length(header: DescriptorHeader)
    ensures
        header_bytes(header).len() == BODY,
{
    le_bytes_len(header.major as nat, 2);
    le_bytes_len(header.minor as nat, 2);
    le_bytes_len(header.opcode as nat, 4);
    le_bytes_len(header.flags as nat, 4);
    le_bytes_len(header.total_len as nat, 4);
    le_bytes_len(header.cookie as nat, 8);
    le_bytes_len(header.reserved as nat, 8);
}

/// What one entry comes to.
#[derive(Clone, Copy, Debug, PartialEq, Eq, Structural)]
pub enum Invoked {
    /// The operation is done; the caller gets this value.
    Done(u64),
    /// It was refused.
    Refused(Status),
    /// It runs in steps around a wait, a copy of bytes or a device access. The
    /// capability is resolved already unless the operation waits.
    Stepwise(Ctx),
}

/// True for the two operations that see the quiescence a stopped domain left.
pub open spec fn is_closing(operation: u32) -> bool {
    operation == op::SCOPE_DRAIN_STATUS || operation == op::SCOPE_RETIRE
}

/// One entry, once its registers were checked and its descriptor was to be
/// copied.
pub struct Call {
    /// Calling domain.
    pub domain: usize,
    /// Calling thread.
    pub thread: usize,
    /// Registers.
    pub entry: Entry,
    /// Time of the entry.
    pub now: u64,
    /// Whether its descriptor, if it has one, could be copied.
    pub copied: bool,
}

impl Call {
    /// Its operation.
    pub open spec fn operation(self) -> u32 {
        self.entry.operation as u32
    }

    /// What is wrong with its descriptor, or nothing.
    pub open spec fn descriptor_fault(self, bytes: Seq<u8>) -> Option<Status> {
        let len = descriptor_of(self.operation());
        if len == 0 {
            None
        } else if !self.copied {
            Some(Status::InvalidAddress)
        } else {
            header_fault(header_in(bytes), self.operation(), len as u64)
        }
    }
}

/// What a termination stopped is reclaimed on the way out.
pub open spec fn settled(acted: Machine, quiet: Machine, operation: u32) -> bool {
    if operation == op::DOMAIN_TERMINATE && acted@.kernel_space is Some {
        reaping(acted@, quiet@)
    } else {
        quiet == acted
    }
}

/// An entry that is refused before its handler runs changes nothing but the
/// count of refusals, what waited to be reclaimed apart.
pub open spec fn refused(
    ready: Machine,
    quiet: Machine,
    after: Machine,
    call: Call,
    staged: Staging,
    left: Staging,
    code: Status,
    outcome: (Invoked, Option<TableEntry>),
) -> bool {
    &&& outcome == (Invoked::Refused(code), None::<TableEntry>)
    &&& settled(ready, quiet, call.operation())
    &&& after@ == quiet@.refusal_noted(call.domain as int)
    &&& left == staged
}

/// What an entry does and answers, given the machine `ready` once stopped
/// domains were reclaimed, the machine `acted` the handler left, the machine
/// `quiet` once what it stopped was reclaimed, and its answer.
pub open spec fn invoked(
    before: Machine,
    ready: Machine,
    acted: Machine,
    quiet: Machine,
    after: Machine,
    call: Call,
    host: Host,
    staged: Staging,
    left: Staging,
    answer: Answer,
    outcome: (Invoked, Option<TableEntry>),
) -> bool {
    let operation = call.operation();
    let base = base_ctx(call.domain, call.thread, call.entry, call.now);
    &&& if is_closing(operation) {
        reaping(before@, ready@)
    } else {
        ready == before
    }
    &&& match call.descriptor_fault(staged.bytes@) {
        Some(code) => refused(ready, quiet, after, call, staged, left, code, outcome),
        None => if is_waiting(operation) {
            &&& outcome == (Invoked::Stepwise(base), None::<TableEntry>)
            &&& after == ready
            &&& left == staged
        } else {
            match ready@.authority(call.domain as int, call.entry, call.now) {
                Err(code) => refused(ready, quiet, after, call, staged, left, code, outcome),
                Ok(cap) => match decoded(operation, staged.bytes@) {
                    None => {
                        &&& outcome == (Invoked::Stepwise(Ctx { cap, ..base }), None::<TableEntry>)
                        &&& after == ready
                        &&& left == staged
                    },
                    Some(request) => {
                        &&& performed(ready, acted, Ctx { cap, ..base }, request, host, answer)
                        &&& outcome.0 == match answer.result {
                            Ok(value) => Invoked::Done(value),
                            Err(code) => Invoked::Refused(code),
                        }
                        &&& outcome.1 == match answer.response {
                            Response::Entry(entry) => Some(entry),
                            _ => None::<TableEntry>,
                        }
                        &&& settled(acted, quiet, operation)
                        &&& if answer.result is Err {
                            after@ == quiet@.refusal_noted(call.domain as int)
                        } else {
                            after == quiet
                        }
                        &&& if answers(operation) && !(answer.response is Nothing) {
                            &&& left.filled
                            &&& left.bytes@ == answered(
                                operation,
                                staged.bytes@,
                                response_bytes(answer.response),
                            )
                        } else {
                            left == staged
                        }
                    },
                },
            }
        },
    }
}

/// Handles one entry whose registers were checked and whose descriptor was to be
/// copied.
///
/// A response goes back whenever a handler wrote one, whatever the status. The
/// operations that ask whether a perimeter has drained reclaim stopped domains
/// on the way in, whatever their descriptor says; a termination does so on the way
/// out, refused or not.
pub fn invoke(
    machine: &mut Machine,
    call: &Call,
    row: &OpSpec,
    staging: &mut Staging,
    host: &Host,
) -> (outcome: (Invoked, Option<TableEntry>))
    requires
        old(machine).wf(),
        old(machine)@.kernel_space is Some,
        call.domain < MAX_DOMAINS,
        call.thread < MAX_THREADS,
        entry_fault(call.entry) is None,
        is_row(*row, call.operation()),
        old(staging).bytes@.len() == descriptor_of(call.operation()),
    ensures
        final(machine).wf(),
        exists|ready: Machine, acted: Machine, quiet: Machine, answer: Answer| #[trigger]
            invoked(
                *old(machine),
                ready,
                acted,
                quiet,
                *final(machine),
                *call,
                *host,
                *old(staging),
                *final(staging),
                answer,
                outcome,
            ),
{
    let operation: u32 = call.entry.operation as u32;
    let ghost before = *machine;
    let ghost staged = *staging;
    let ghost none = Answer { result: Ok(0), response: Response::Nothing };
    proof {
        descriptors_hold_a_header(operation);
    }
    if operation == op::SCOPE_DRAIN_STATUS || operation == op::SCOPE_RETIRE {
        reap_dead(machine);
    }
    let ghost ready = *machine;
    if row.descriptor_len != 0 {
        let fault = if !call.copied {
            Some(Status::InvalidAddress)
        } else {
            match read_header(staging.bytes.as_slice()) {
                None => Some(Status::InvalidArgument),
                Some(header) => match validate_header(
                    &header,
                    operation,
                    row.descriptor_len as u64,
                ) {
                    Ok(()) => None,
                    Err(code) => Some(code),
                },
            }
        };
        if let Some(code) = fault {
            settle(machine, operation);
            let ghost quiet = *machine;
            note_refusal(machine, call.domain);
            let outcome = (Invoked::Refused(code), None);
            assert(invoked(
                before,
                ready,
                ready,
                quiet,
                *machine,
                *call,
                *host,
                staged,
                *staging,
                none,
                outcome,
            ));
            return outcome;
        }
    }
    if waits(operation) {
        let outcome = (
            Invoked::Stepwise(unresolved(call.domain, call.thread, &call.entry, call.now)),
            None,
        );
        assert(invoked(
            before,
            ready,
            ready,
            ready,
            *machine,
            *call,
            *host,
            staged,
            *staging,
            none,
            outcome,
        ));
        return outcome;
    }
    let ctx = match authorize(
        machine,
        call.domain,
        call.thread,
        &call.entry,
        row,
        call.now,
    ) {
        Err(code) => {
            settle(machine, operation);
            let ghost quiet = *machine;
            note_refusal(machine, call.domain);
            let outcome = (Invoked::Refused(code), None);
            assert(invoked(
                before,
                ready,
                ready,
                quiet,
                *machine,
                *call,
                *host,
                staged,
                *staging,
                none,
                outcome,
            ));
            return outcome;
        },
        Ok(ctx) => ctx,
    };
    let request = match decode(operation, staging.bytes.as_slice()) {
        None => {
            let outcome = (Invoked::Stepwise(ctx), None);
            assert(invoked(
                before,
                ready,
                before,
                before,
                *machine,
                *call,
                *host,
                staged,
                *staging,
                none,
                outcome,
            ));
            return outcome;
        },
        Some(request) => request,
    };
    proof {
        decoded_is_its_operation(operation, staging.bytes@);
    }
    let answer = simple(machine, &ctx, &request, host);
    let ghost acted = *machine;
    let silent = match answer.response {
        Response::Nothing => true,
        _ => false,
    };
    if row.writes_response && !silent {
        let body = encode(&answer.response);
        write_response(staging, operation, body.as_slice());
    }
    let entry = match answer.response {
        Response::Entry(entry) => Some(entry),
        _ => None,
    };
    settle(machine, operation);
    let ghost quiet = *machine;
    let invoked_as = match answer.result {
        Ok(value) => Invoked::Done(value),
        Err(code) => {
            note_refusal(machine, call.domain);
            Invoked::Refused(code)
        },
    };
    let outcome = (invoked_as, entry);
    assert(invoked(
        before,
        ready,
        acted,
        quiet,
        *machine,
        *call,
        *host,
        staged,
        *staging,
        answer,
        outcome,
    ));
    outcome
}

/// Reclaims what a termination stopped.
fn settle(machine: &mut Machine, operation: u32)
    requires
        old(machine).wf(),
    ensures
        final(machine).wf(),
        settled(*old(machine), *final(machine), operation),
{
    if operation == op::DOMAIN_TERMINATE && machine.has_kernel_space() {
        reap_dead(machine);
    }
}

/// A request is decoded as the operation it was passed for.
proof fn decoded_is_its_operation(operation: u32, bytes: Seq<u8>)
    ensures
        decoded(operation, bytes) matches Some(request) ==> request.code() == operation,
{
}

} // verus!
