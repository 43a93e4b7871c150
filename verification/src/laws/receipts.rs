//! The control log: receipts stand in order, say who did what, and are dropped by
//! their readers alone.

use vstd::prelude::*;

use crate::abi::receipt_kind;
use crate::api::{Ctx, Stated};
use crate::ctrl::{acknowledged, LogModel, ReceiptRecord};
use crate::limits::{CONTROL_LOG_CAPACITY, CONTROL_LOG_RESERVED, MAX_DOMAINS, MAX_SCOPES};
use crate::state::MachineModel;

verus! {

/// There is a cell for a receipt: one held back for it, or one that is neither
/// written nor held back. The last cells are for closing receipts.
pub open spec fn has_cell(log: LogModel, kind: u32, held: bool) -> bool {
    ||| held && log.pending > 0
    ||| log.live.len() + log.pending < CONTROL_LOG_CAPACITY - CONTROL_LOG_RESERVED
    ||| (kind == receipt_kind::FENCE || kind == receipt_kind::RETIRE) && log.live.len()
        + log.pending < CONTROL_LOG_CAPACITY
}

/// A receipt is written behind all others under the next sequence, or counted as
/// missing. No receipt that was written is changed or lost by it.
pub proof fn a_receipt_is_written_or_counted(log: LogModel, record: ReceiptRecord, held: bool)
    ensures
        ({
            let after = log.recorded(record, held);
            let closing = record.kind == receipt_kind::FENCE || record.kind
                == receipt_kind::RETIRE;
            &&& forall|i: int|
                0 <= i < log.live.len() ==> #[trigger] after.live[i] == log.live[i]
            &&& has_cell(log, record.kind, held) ==> {
                &&& after.live.len() == log.live.len() + 1
                &&& after.live.last().sequence == log.next_sequence
                &&& after.live.last().kind == record.kind
                &&& after.live.last().ns == record.ns
                &&& after.live.last().epoch == record.epoch
                &&& after.live.last().origin_domain_id == record.origin_domain_id
                &&& after.live.last().origin_scope_id == record.origin_scope_id
                &&& after.live.last().object_id == record.object_id
                &&& after.live.last().grant_id == record.grant_id
                &&& after.live.last().parent_invocation_id == record.parent_invocation_id
                &&& after.live.last().result == record.result
                &&& after.live.last().a == record.a
                &&& after.live.last().b == record.b
                &&& log.next_sequence < u64::MAX ==> after.next_sequence == log.next_sequence + 1
                &&& after.lost == log.lost
                &&& after.coalesced == log.coalesced
            }
            &&& !has_cell(log, record.kind, held) ==> {
                &&& after.live.len() == log.live.len()
                &&& after.next_sequence == log.next_sequence
                &&& !closing && log.lost < u32::MAX ==> after.lost == log.lost + 1
                &&& closing ==> after.lost == log.lost
                &&& closing && log.coalesced < u32::MAX ==> after.coalesced == log.coalesced + 1
                &&& !closing ==> after.coalesced == log.coalesced
            }
            &&& held && log.pending > 0 ==> after.pending == log.pending - 1
            &&& !held ==> after.pending == log.pending
        }),
{
}

/// A cell is held back for a covered operation only while cells for ordinary
/// receipts are left, so what was promised is written.
pub proof fn a_promised_receipt_is_written(log: LogModel, record: ReceiptRecord)
    requires
        log.can_reserve(),
        log.pending < u32::MAX,
    ensures
        log.live.len() + log.pending < CONTROL_LOG_CAPACITY - CONTROL_LOG_RESERVED,
        log.reserved().pending == log.pending + 1,
        log.reserved().live == log.live,
        log.reserved().recorded(record, true).live.len() == log.live.len() + 1,
        log.reserved().recorded(record, true).pending == log.pending,
{
}

/// Acknowledging drops the oldest receipts up to the sequence that is named, and
/// stops at the first that is later.
pub proof fn acknowledging_drops_what_was_read(records: Seq<ReceiptRecord>, through: u64)
    ensures
        ({
            let n = acknowledged(records, through);
            &&& n <= records.len()
            &&& forall|i: int| 0 <= i < n ==> (#[trigger] records[i]).sequence <= through
            &&& n < records.len() ==> records[n as int].sequence > through
        }),
    decreases records.len(),
{
    if records.len() > 0 && records[0].sequence <= through {
        let rest = records.drop_first();
        acknowledging_drops_what_was_read(rest, through);
        let n = acknowledged(rest, through);
        assert forall|i: int| 0 <= i < n + 1 implies (#[trigger] records[i]).sequence <= through by {
            if i > 0 {
                assert(rest[i - 1] == records[i]);
            }
        }
        if n < rest.len() {
            assert(rest[n as int] == records[(n + 1) as int]);
        }
    }
}

/// A receipt says who caused it, for which scope, on what, under which authority
/// and with what result, at the time it was written.
pub proof fn a_receipt_says_what_happened(m: MachineModel, stated: Stated, now: u64, held: bool)
    requires
        m.wf(),
        stated.domain < MAX_DOMAINS,
        stated.scope < MAX_SCOPES,
        m.system_log matches Some(l) && l < m.logs.len() && has_cell(
            m.logs[l as int],
            stated.kind,
            held,
        ),
    ensures
        ({
            let l = m.system_log->0 as int;
            let after = m.receipted(stated, now, held);
            let made = after.logs[l].live.last();
            &&& after.logs[l].live.len() == m.logs[l].live.len() + 1
            &&& made.kind == stated.kind
            &&& made.sequence == m.logs[l].next_sequence
            &&& made.sequence == m.receipt_sequence(stated.kind, held)
            &&& made.ns == now
            &&& made.epoch == m.boot_epoch
            &&& made.origin_domain_id == m.domains[stated.domain as int].id
            &&& made.origin_scope_id == m.scopes[stated.scope as int].id
            &&& made.object_id == stated.object
            &&& made.grant_id == stated.grant
            &&& made.parent_invocation_id == stated.parent
            &&& made.result == stated.result.code_spec()
            &&& made.a == stated.a
            &&& made.b == stated.b
            &&& forall|k: int|
                0 <= k < m.logs.len() && k != l ==> #[trigger] after.logs[k] == m.logs[k]
            &&& after == (MachineModel { logs: after.logs, threads: after.threads, ..m })
        }),
{
    let l = m.system_log->0 as int;
    a_receipt_is_written_or_counted(m.logs[l], m.receipt_for(stated, now), held);
}

/// A note in the log is stamped with the thread's own scope and obligation and
/// carries the words of its writer.
pub proof fn a_note_carries_the_words_of_its_writer(
    m: MachineModel,
    ctx: Ctx,
    request: crate::abi::request::LogAppendRequest,
)
    ensures
        ({
            let note = m.note_of(ctx, request);
            &&& note.kind == receipt_kind::SERVICE_NOTE
            &&& note.domain == ctx.domain
            &&& note.scope == m.threads[ctx.thread as int].effective_scope
            &&& note.parent == match m.threads[ctx.thread as int].bound {
                Some((i, _)) => m.invocations[i as int].id,
                None => 0,
            }
            &&& note.object == request.kind
            &&& note.a == request.a
            &&& note.b == request.b
            &&& note.grant == 0
        }),
{
}

} // verus!
