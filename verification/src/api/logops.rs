//! The control log seen through a capability.
//!
//! Reading receipts requires a right; appending one requires a different right.
//! An appended receipt carries the caller's own two values and the kernel's
//! statement of who appended it: whatever origin the caller claims is ignored.

use vstd::prelude::*;

use crate::abi::request::{LogAppendRequest, LogInfo};
use crate::abi::status::Status;
use crate::abi::wire::{push_double_word, push_receipt, push_word, receipt_bytes};
use crate::abi::{flag, object_type, receipt_kind, right};
use crate::api::calls::caller_ok;
use crate::api::ipcops::bound_id;
use crate::api::{ctx_ok, receipt, resolve, Ctx, Stated};
use crate::bytes::le_bytes;
use crate::ctrl::{acknowledged, LogModel, ReceiptRecord};
use crate::limits::{CONTROL_LOG_CAPACITY, CONTROL_LOG_RESERVED, LOG_BATCH};
use crate::obj::ObjKind;
use crate::state::{Machine, MachineModel, Wait};
use crate::thread::prepare_wait;

verus! {

/// Receipts as a reader sees them.
pub struct Batch {
    /// The oldest receipts, oldest first.
    pub records: Vec<ReceiptRecord>,
    /// Receipts lost so far.
    pub lost: u32,
    /// Sequence of the next receipt.
    pub next_sequence: u64,
}

/// Receipts as bytes, in order.
pub open spec fn records_bytes(records: Seq<ReceiptRecord>) -> Seq<u8>
    decreases records.len(),
{
    if records.len() == 0 {
        Seq::empty()
    } else {
        records_bytes(records.drop_last()) + receipt_bytes(records.last())
    }
}

/// A batch as bytes: how many receipts there are, how many were lost, the next
/// sequence, and the receipts.
pub open spec fn batch_bytes(batch: Batch) -> Seq<u8> {
    le_bytes(batch.records@.len(), 4) + le_bytes(batch.lost as nat, 4) + le_bytes(
        batch.next_sequence as nat,
        8,
    ) + records_bytes(batch.records@)
}

/// Writes a batch behind what is there.
pub fn push_batch(out: &mut Vec<u8>, batch: &Batch)
    requires
        batch.records@.len() <= u32::MAX,
    ensures
        final(out)@ == old(out)@ + batch_bytes(*batch),
{
    let ghost before = out@;
    push_word(out, batch.records.len() as u32);
    push_word(out, batch.lost);
    push_double_word(out, batch.next_sequence);
    let ghost head = out@;
    assert(batch.records@.take(0) =~= Seq::empty());
    assert(out@ =~= head + records_bytes(batch.records@.take(0)));
    for k in 0..batch.records.len()
        invariant
            out@ == head + records_bytes(batch.records@.take(k as int)),
    {
        push_receipt(out, &batch.records[k]);
        proof {
            let done = batch.records@.take(k + 1);
            assert(done.drop_last() =~= batch.records@.take(k as int));
            assert(out@ =~= head + records_bytes(done));
        }
    }
    assert(batch.records@.take(batch.records@.len() as int) =~= batch.records@);
    assert(out@ =~= before + batch_bytes(*batch));
}

/// What one look at a log came to.
pub enum Read {
    /// The answer.
    Batch(Batch),
    /// The thread sleeps until the log holds a batch.
    Asleep,
}

impl MachineModel {
    /// The log a reader names, or why it may not read it.
    pub open spec fn log_cap(self, ctx: Ctx, now: u64) -> Result<int, Status> {
        match self.resolved(
            ctx.domain as int,
            ctx.handle,
            object_type::CONTROL_LOG,
            right::LOG_READ,
            now,
        ) {
            Ok(cap) => Ok(cap.object.index as int),
            Err(code) => Err(code),
        }
    }

    /// A read is answered at once: the log holds a full batch, the reader does
    /// not wait, or its deadline has passed.
    pub open spec fn read_is_due(self, l: int, ctx: Ctx, now: u64, last: bool) -> bool {
        ||| self.logs[l].live.len() >= LOG_BATCH
        ||| ctx.deadline == 0
        ||| last
        ||| now >= ctx.deadline
    }

    /// The receipt of a service note: the domain and the scope are the kernel's
    /// statement, not the caller's claim.
    pub open spec fn note_of(self, ctx: Ctx, request: LogAppendRequest) -> Stated {
        Stated {
            kind: receipt_kind::SERVICE_NOTE,
            domain: ctx.domain,
            scope: self.threads[ctx.thread as int].effective_scope,
            object: request.kind as u64,
            grant: 0,
            parent: self.bound_id(ctx.thread as int),
            result: Status::Success,
            a: request.a,
            b: request.b,
        }
    }
}

/// Reads a bounded batch of receipts and the loss count.
///
/// With a deadline, the read waits until the log holds a full batch or the
/// deadline passes, and answers with what there is then; without one it answers
/// at once. `last` says that the deadline has passed while the thread slept.
pub fn read(machine: &mut Machine, ctx: &Ctx, now: u64, last: bool) -> (result: Result<
    Read,
    Status,
>)
    requires
        old(machine).wf(),
        caller_ok(*ctx),
    ensures
        final(machine).wf(),
        final(machine).same_tables(*old(machine)),
        ({
            let m = old(machine)@;
            match m.log_cap(*ctx, now) {
                Err(code) => result matches Err(c) && c == code && final(machine)@ == m,
                Ok(l) => if m.read_is_due(l, *ctx, now, last) {
                    &&& final(machine)@ == m
                    &&& result matches Ok(Read::Batch(batch)) && {
                        &&& batch.records@ == m.logs[l].live.take(
                            if m.logs[l].live.len() < LOG_BATCH {
                                m.logs[l].live.len() as int
                            } else {
                                LOG_BATCH as int
                            },
                        )
                        &&& batch.lost == m.logs[l].lost
                        &&& batch.next_sequence == m.logs[l].next_sequence
                    }
                } else if ctx.flags & flag::NONBLOCKING != 0 {
                    result matches Err(c) && c == Status::WouldBlock && final(machine)@ == m
                } else {
                    &&& result matches Ok(Read::Asleep)
                    &&& final(machine)@ == m.wait_begun(
                        ctx.thread as int,
                        Wait::Log(l as u16, m.logs[l].generation),
                        ctx.deadline,
                    )
                },
            }
        }),
{
    let cap = match resolve(
        machine,
        ctx.domain,
        ctx.handle,
        object_type::CONTROL_LOG,
        right::LOG_READ,
        now,
    ) {
        Err(code) => {
            return Err(code);
        },
        Ok(cap) => cap,
    };
    assert(cap.object.kind == ObjKind::ControlLog);
    let l: usize = cap.object.index as usize;
    let log = machine.log(l);
    assert(log@.live.len() == log.count);
    if log.occupied() >= LOG_BATCH || ctx.deadline == 0 || last || now >= ctx.deadline {
        let records = log.read(LOG_BATCH);
        return Ok(
            Read::Batch(Batch { records, lost: log.lost, next_sequence: log.next_sequence }),
        );
    }
    if ctx.flags & flag::NONBLOCKING != 0 {
        return Err(Status::WouldBlock);
    }
    prepare_wait(
        machine,
        ctx.thread,
        Wait::Log(l as u16, cap.object.generation),
        ctx.deadline,
    );
    Ok(Read::Asleep)
}

/// Appends a service note whose origin the kernel stamps.
pub fn append(machine: &mut Machine, ctx: &Ctx, request: &LogAppendRequest) -> (result: Result<
    u64,
    Status,
>)
    requires
        old(machine).wf(),
        ctx_ok(*ctx, ObjKind::ControlLog),
    ensures
        final(machine).wf(),
        final(machine).same_tables(*old(machine)),
        ({
            let m = old(machine)@;
            let sequence = m.receipt_sequence(receipt_kind::SERVICE_NOTE, false);
            if request.reserved0 != 0 {
                &&& result == Err::<u64, Status>(Status::InvalidArgument)
                &&& final(machine)@ == m
            } else {
                &&& final(machine)@ == m.receipted(m.note_of(*ctx, *request), ctx.now, false)
                &&& result == if sequence == 0 {
                    Err::<u64, Status>(Status::LimitExhausted)
                } else {
                    Ok::<u64, Status>(sequence)
                }
            }
        }),
{
    if request.reserved0 != 0 {
        return Err(Status::InvalidArgument);
    }
    let scope: u16 = machine.thread(ctx.thread).effective_scope;
    let parent: u64 = bound_id(machine, ctx.thread);
    let sequence: u64 = receipt(
        machine,
        Stated {
            kind: receipt_kind::SERVICE_NOTE,
            domain: ctx.domain,
            scope,
            object: request.kind as u64,
            grant: 0,
            parent,
            result: Status::Success,
            a: request.a,
            b: request.b,
        },
        ctx.now,
        false,
    );
    if sequence == 0 {
        return Err(Status::LimitExhausted);
    }
    Ok(sequence)
}

/// Acknowledges consumption up to a sequence; returns how many receipts it
/// dropped.
pub fn acknowledge(machine: &mut Machine, ctx: &Ctx, through: u64) -> (dropped: u64)
    requires
        old(machine).wf(),
        ctx_ok(*ctx, ObjKind::ControlLog),
    ensures
        final(machine).wf(),
        final(machine).same_tables(*old(machine)),
        ({
            let l = ctx.cap.object.index as int;
            let log = old(machine)@.logs[l];
            &&& dropped == acknowledged(log.live, through)
            &&& final(machine)@ == old(machine)@.with_log(
                l,
                LogModel { live: log.live.skip(dropped as int), ..log },
            )
        }),
{
    machine.acknowledge_receipts(ctx.cap.object.index as usize, through) as u64
}

/// Reports capacity, reservation and loss.
pub fn query(machine: &Machine, ctx: &Ctx) -> (info: LogInfo)
    requires
        machine.wf(),
        ctx_ok(*ctx, ObjKind::ControlLog),
    ensures
        ({
            let log = machine@.logs[ctx.cap.object.index as int];
            info == LogInfo {
                capacity: CONTROL_LOG_CAPACITY as u32,
                reserved_cells: CONTROL_LOG_RESERVED as u32,
                used: log.live.len() as u32,
                lost: log.lost,
                next_sequence: log.next_sequence,
                oldest_sequence: if log.live.len() == 0 {
                    log.next_sequence
                } else {
                    log.live[0].sequence
                },
                object_id: log.id,
            }
        }),
{
    let log = machine.log(ctx.cap.object.index as usize);
    assert(log@.live.len() == log.count);
    LogInfo {
        capacity: CONTROL_LOG_CAPACITY as u32,
        reserved_cells: CONTROL_LOG_RESERVED as u32,
        used: log.count as u32,
        lost: log.lost,
        next_sequence: log.next_sequence,
        oldest_sequence: log.oldest_sequence,
        object_id: log.id,
    }
}

/// A note says who wrote it whatever its writer claims.
pub proof fn claimed_origin_is_ignored(
    m: MachineModel,
    ctx: Ctx,
    request: LogAppendRequest,
    claim: u64,
)
    ensures
        m.note_of(ctx, request) == m.note_of(
            ctx,
            (LogAppendRequest { claimed_origin_domain_id: claim, ..request }),
        ),
        ctx.domain < crate::limits::MAX_DOMAINS ==> m.receipt_for(
            m.note_of(ctx, request),
            ctx.now,
        ).origin_domain_id == m.domains[ctx.domain as int].id,
{
}

} // verus!
