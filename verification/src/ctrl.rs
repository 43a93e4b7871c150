//! The control-receipt plane.
//!
//! A receipt is reserved *before* a covered operation is admitted; if no cell
//! can be reserved, the operation is refused before it has an effect. Coverage
//! is bought in advance: a reserved cell is kept for its receipt, whatever else
//! is written in between, so a claim that an operation was recorded is a claim
//! about a reservation and not about a hopeful write. The log does not overwrite: a full log stops covered admissions rather than silently
//! forgetting the oldest receipt. Cells are freed by a reader acknowledging
//! them.
//!
//! A fixed number of cells is reserved for closing authority, so saturating the
//! log with ordinary traffic never prevents a fence or a retirement from being
//! recorded. If even those cells run out, closing receipts coalesce into a
//! counter.

use vstd::prelude::*;

use crate::abi::receipt_kind;
use crate::limits::{CONTROL_LOG_CAPACITY, CONTROL_LOG_RESERVED};

verus! {

/// Schema version stamped on every receipt.
pub const RECEIPT_SCHEMA: u32 = 1;

/// One control receipt.
#[derive(Clone, Copy, Debug, PartialEq, Eq, Structural)]
pub struct ReceiptRecord {
    /// Schema version.
    pub schema: u32,
    /// What happened, one of [`receipt_kind`].
    pub kind: u32,
    /// Position in the log's history.
    pub sequence: u64,
    /// Boot the receipt belongs to.
    pub epoch: u64,
    /// Monotonic time.
    pub ns: u64,
    /// Identity of the domain that caused it.
    pub origin_domain_id: u64,
    /// Identity of the scope it was charged to.
    pub origin_scope_id: u64,
    /// Identity of the object it is about.
    pub object_id: u64,
    /// Identity of the grant that permitted it.
    pub grant_id: u64,
    /// Identity of the invocation it happened under.
    pub parent_invocation_id: u64,
    /// Result.
    pub result: i64,
    /// First detail.
    pub a: u64,
    /// Second detail.
    pub b: u64,
}

impl ReceiptRecord {
    /// A record with every field zero.
    pub open spec fn zeroed_spec() -> ReceiptRecord {
        ReceiptRecord {
            schema: 0,
            kind: 0,
            sequence: 0,
            epoch: 0,
            ns: 0,
            origin_domain_id: 0,
            origin_scope_id: 0,
            object_id: 0,
            grant_id: 0,
            parent_invocation_id: 0,
            result: 0,
            a: 0,
            b: 0,
        }
    }

    /// A record with every field zero.
    pub fn zeroed() -> (record: ReceiptRecord)
        ensures
            record == ReceiptRecord::zeroed_spec(),
    {
        ReceiptRecord {
            schema: 0,
            kind: 0,
            sequence: 0,
            epoch: 0,
            ns: 0,
            origin_domain_id: 0,
            origin_scope_id: 0,
            object_id: 0,
            grant_id: 0,
            parent_invocation_id: 0,
            result: 0,
            a: 0,
            b: 0,
        }
    }
}

/// The receipt kinds that may occupy a reserved cell.
pub open spec fn closes(kind: u32) -> bool {
    kind == receipt_kind::FENCE || kind == receipt_kind::RETIRE
}

/// True for the receipt kinds that may occupy a reserved cell.
pub fn is_closing(kind: u32) -> (yes: bool)
    ensures
        yes == closes(kind),
{
    kind == receipt_kind::FENCE || kind == receipt_kind::RETIRE
}

/// A bounded ring of control receipts.
#[derive(Clone, Copy, Debug)]
pub struct ControlLog {
    /// Whether the slot is in use.
    pub used: bool,
    /// Generation of this table slot.
    pub generation: u32,
    /// Diagnostic identity.
    pub id: u64,
    /// Scope charged for the ring.
    pub owner_scope: u16,
    /// Records, oldest at `head`.
    pub records: [ReceiptRecord; CONTROL_LOG_CAPACITY],
    /// Index of the oldest live record.
    pub head: usize,
    /// Live records.
    pub count: usize,
    /// Sequence the next receipt will carry.
    pub next_sequence: u64,
    /// Sequence of the oldest live record.
    pub oldest_sequence: u64,
    /// Ordinary receipts that could not be written.
    pub lost: u32,
    /// Closing receipts folded into a counter because even the reserved cells
    /// were full.
    pub coalesced: u32,
    /// Cells reserved by an admission that has not yet committed its receipt.
    pub pending_reservations: u32,
    /// Capability entries naming this log.
    pub refs: u32,
}

/// A control log as mathematical values.
#[verifier::ext_equal]
pub struct LogModel {
    /// Whether the slot is in use.
    pub used: bool,
    /// Generation of this table slot.
    pub generation: u32,
    /// Diagnostic identity.
    pub id: u64,
    /// Scope charged for the ring.
    pub owner_scope: u16,
    /// Live records, oldest first.
    pub live: Seq<ReceiptRecord>,
    /// Sequence the next receipt will carry.
    pub next_sequence: u64,
    /// Ordinary receipts that could not be written.
    pub lost: u32,
    /// Closing receipts folded into a counter.
    pub coalesced: u32,
    /// Cells reserved and not yet written.
    pub pending: u32,
    /// Capability entries naming this log.
    pub refs: u32,
}

impl View for ControlLog {
    type V = LogModel;

    open spec fn view(&self) -> LogModel {
        LogModel {
            used: self.used,
            generation: self.generation,
            id: self.id,
            owner_scope: self.owner_scope,
            live: self.live(),
            next_sequence: self.next_sequence,
            lost: self.lost,
            coalesced: self.coalesced,
            pending: self.pending_reservations,
            refs: self.refs,
        }
    }
}

impl LogModel {
    /// A covered ordinary operation can reserve a cell.
    pub open spec fn can_reserve(self) -> bool {
        self.live.len() + self.pending < CONTROL_LOG_CAPACITY - CONTROL_LOG_RESERVED
    }

    /// There is a cell for a receipt of `kind`: the one that was reserved for
    /// it, or one that is neither occupied nor reserved for another.
    pub open spec fn takes(self, kind: u32, reserved: bool) -> bool {
        reserved && self.pending > 0 || self.live.len() + self.pending < ControlLog::limit_for(kind)
    }

    /// The log once `record` has been written to it, into a cell that had been
    /// reserved or not, or counted as lost.
    pub open spec fn recorded(self, record: ReceiptRecord, reserved: bool) -> LogModel {
        let pending = if reserved {
            one_less(self.pending)
        } else {
            self.pending
        };
        if self.takes(record.kind, reserved) {
            LogModel {
                pending,
                live: self.live.push(
                    ReceiptRecord {
                        schema: RECEIPT_SCHEMA,
                        sequence: self.next_sequence,
                        ..record
                    },
                ),
                next_sequence: if self.next_sequence < u64::MAX {
                    (self.next_sequence + 1) as u64
                } else {
                    u64::MAX
                },
                ..self
            }
        } else if closes(record.kind) {
            LogModel { coalesced: one_more(self.coalesced), pending, ..self }
        } else {
            LogModel { lost: one_more(self.lost), pending, ..self }
        }
    }

    /// The log with one cell more reserved.
    pub open spec fn reserved(self) -> LogModel {
        LogModel { pending: (self.pending + 1) as u32, ..self }
    }

    /// The log once records have been written to it into no reserved cell.
    pub open spec fn all_written(self, records: Seq<ReceiptRecord>) -> LogModel
        decreases records.len(),
    {
        if records.len() == 0 {
            self
        } else {
            self.all_written(records.drop_last()).recorded(records.last(), false)
        }
    }
}

/// What [`ControlLog::wrote`] says of the fields, said of the model.
pub proof fn wrote_is_recorded(
    before: ControlLog,
    after: ControlLog,
    record: ReceiptRecord,
    reserved: bool,
)
    requires
        after.wrote(before, record, reserved),
    ensures
        after@ == before@.recorded(record, reserved),
{
    assert(after@ =~= before@.recorded(record, reserved));
}

/// One more, unless that overflows.
pub open spec fn one_more(n: u32) -> u32 {
    if n < u32::MAX {
        (n + 1) as u32
    } else {
        n
    }
}

/// One less, unless that underflows.
pub open spec fn one_less(n: u32) -> u32 {
    if n > 0 {
        (n - 1) as u32
    } else {
        n
    }
}

/// Number of leading records whose sequence is at most `sequence`.
pub open spec fn acknowledged(records: Seq<ReceiptRecord>, sequence: u64) -> nat
    decreases records.len(),
{
    if records.len() == 0 || records[0].sequence > sequence {
        0
    } else {
        1 + acknowledged(records.drop_first(), sequence)
    }
}

impl ControlLog {
    /// The live records, oldest first.
    pub open spec fn live(self) -> Seq<ReceiptRecord> {
        Seq::new(
            self.count as nat,
            |i: int| self.records@[(self.head + i) % CONTROL_LOG_CAPACITY as int],
        )
    }

    /// The ring is in bounds and has room for every cell that was reserved, the
    /// sequences of the live records rise, and the oldest sequence is the first
    /// of them.
    pub open spec fn wf(self) -> bool {
        &&& self.head < CONTROL_LOG_CAPACITY
        &&& self.count + self.pending_reservations <= CONTROL_LOG_CAPACITY
        &&& forall|i: int, j: int|
            0 <= i < j < self.count ==> {
                ||| (#[trigger] self.live()[i]).sequence < (#[trigger] self.live()[j]).sequence
                ||| self.live()[j].sequence == u64::MAX
            }
        &&& forall|i: int|
            0 <= i < self.count ==> (#[trigger] self.live()[i]).sequence < self.next_sequence
                || self.next_sequence == u64::MAX
        &&& self.oldest_sequence == if self.count == 0 {
            self.next_sequence
        } else {
            self.live()[0].sequence
        }
    }

    /// Every field but those a receipt changes is the same.
    pub open spec fn same_log(self, before: ControlLog) -> bool {
        &&& self.used == before.used
        &&& self.generation == before.generation
        &&& self.id == before.id
        &&& self.owner_scope == before.owner_scope
        &&& self.refs == before.refs
    }

    /// Cells that a receipt of `kind` may occupy together with all others.
    pub open spec fn limit_for(kind: u32) -> int {
        if closes(kind) {
            CONTROL_LOG_CAPACITY as int
        } else {
            CONTROL_LOG_CAPACITY - CONTROL_LOG_RESERVED
        }
    }

    /// What writing `record` to `before` leaves, into a cell that had been
    /// reserved or not.
    pub open spec fn wrote(self, before: ControlLog, record: ReceiptRecord, reserved: bool) -> bool {
        let stamped = ReceiptRecord {
            schema: RECEIPT_SCHEMA,
            sequence: before.next_sequence,
            ..record
        };
        &&& self.wf()
        &&& self.same_log(before)
        &&& self.pending_reservations == if reserved {
            one_less(before.pending_reservations)
        } else {
            before.pending_reservations
        }
        &&& if before@.takes(record.kind, reserved) {
            &&& self.live() == before.live().push(stamped)
            &&& self.next_sequence == if before.next_sequence < u64::MAX {
                (before.next_sequence + 1) as u64
            } else {
                u64::MAX
            }
            &&& self.lost == before.lost
            &&& self.coalesced == before.coalesced
        } else {
            &&& self.live() == before.live()
            &&& self.next_sequence == before.next_sequence
            &&& self.lost == if closes(record.kind) {
                before.lost
            } else {
                one_more(before.lost)
            }
            &&& self.coalesced == if closes(record.kind) {
                one_more(before.coalesced)
            } else {
                before.coalesced
            }
        }
    }

    /// A free slot.
    pub fn empty() -> (log: ControlLog)
        ensures
            log.wf(),
            !log.used,
            log.generation == 0,
            log.id == 0,
            log.owner_scope == 0,
            log.live() == Seq::<ReceiptRecord>::empty(),
            log.next_sequence == 1,
            log.lost == 0,
            log.coalesced == 0,
            log.pending_reservations == 0,
            log.refs == 0,
    {
        let blank = ReceiptRecord::zeroed();
        let log = ControlLog {
            used: false,
            generation: 0,
            id: 0,
            owner_scope: 0,
            records: [blank; CONTROL_LOG_CAPACITY],
            head: 0,
            count: 0,
            next_sequence: 1,
            oldest_sequence: 1,
            lost: 0,
            coalesced: 0,
            pending_reservations: 0,
            refs: 0,
        };
        assert(log.live() =~= Seq::<ReceiptRecord>::empty());
        log
    }

    /// Cells ordinary traffic may occupy.
    pub fn ordinary_capacity(&self) -> (cells: usize)
        ensures
            cells == CONTROL_LOG_CAPACITY - CONTROL_LOG_RESERVED,
    {
        CONTROL_LOG_CAPACITY - CONTROL_LOG_RESERVED
    }

    /// Records the log holds.
    pub fn occupied(&self) -> (cells: usize)
        ensures
            cells == self@.live.len(),
    {
        self.count
    }

    /// Whether a covered ordinary operation can reserve a cell right now.
    pub fn can_reserve(&self) -> (yes: bool)
        ensures
            yes == (self.count + self.pending_reservations < CONTROL_LOG_CAPACITY
                - CONTROL_LOG_RESERVED),
    {
        self.count < self.ordinary_capacity() && (self.pending_reservations as usize)
            < self.ordinary_capacity() - self.count
    }

    /// Reserves a cell for a covered operation, refusing when none is left.
    pub fn reserve(&mut self) -> (done: bool)
        ensures
            done == (old(self).count + old(self).pending_reservations < CONTROL_LOG_CAPACITY
                - CONTROL_LOG_RESERVED),
            *final(self) == (ControlLog {
                pending_reservations: if done {
                    (old(self).pending_reservations + 1) as u32
                } else {
                    old(self).pending_reservations
                },
                ..*old(self)
            }),
            old(self).wf() ==> final(self).wf(),
    {
        if !self.can_reserve() {
            return false;
        }
        self.pending_reservations += 1;
        assert(self.live() =~= old(self).live());
        true
    }

    /// Returns a reservation an operation did not use, because it was refused
    /// on a later check.
    pub fn release_reservation(&mut self)
        ensures
            *final(self) == (ControlLog {
                pending_reservations: one_less(old(self).pending_reservations),
                ..*old(self)
            }),
            old(self).wf() ==> final(self).wf(),
    {
        if self.pending_reservations > 0 {
            self.pending_reservations -= 1;
        }
        assert(self.live() =~= old(self).live());
    }

    /// Appends a record that carries the next sequence.
    fn push(&mut self, record: ReceiptRecord)
        requires
            old(self).wf(),
            old(self).count < CONTROL_LOG_CAPACITY,
            record.sequence == old(self).next_sequence,
        ensures
            final(self).head == old(self).head,
            final(self).count == old(self).count + 1,
            final(self).live() == old(self).live().push(record),
            final(self).oldest_sequence == if old(self).count == 0 {
                record.sequence
            } else {
                old(self).oldest_sequence
            },
            final(self).same_log(*old(self)),
            final(self).next_sequence == old(self).next_sequence,
            final(self).lost == old(self).lost,
            final(self).coalesced == old(self).coalesced,
            final(self).pending_reservations == old(self).pending_reservations,
    {
        let index: usize = (self.head + self.count) % CONTROL_LOG_CAPACITY;
        self.records[index] = record;
        if self.count == 0 {
            self.oldest_sequence = record.sequence;
        }
        self.count += 1;
        proof {
            let before = old(self).live();
            assert forall|i: int| 0 <= i < self.count implies self.live()[i] == before.push(
                record,
            )[i] by {
                if i < before.len() {
                    assert((self.head + i) % CONTROL_LOG_CAPACITY as int != index);
                }
            }
            assert(self.live() =~= before.push(record));
        }
    }

    /// Writes a receipt that a previous [`ControlLog::reserve`] paid for.
    ///
    /// Where nothing was reserved, it is written as any other.
    pub fn commit_reserved(&mut self, record: ReceiptRecord) -> (sequence: u64)
        requires
            old(self).wf(),
        ensures
            final(self).wrote(*old(self), record, true),
            sequence == if old(self)@.takes(record.kind, true) {
                old(self).next_sequence
            } else {
                0
            },
            old(self).pending_reservations > 0 ==> {
                &&& sequence == old(self).next_sequence
                &&& final(self).lost == old(self).lost
            },
    {
        if self.pending_reservations == 0 {
            return self.write(record);
        }
        self.pending_reservations -= 1;
        let ghost middle = *self;
        assert(middle.live() =~= old(self).live());
        self.append(record)
    }

    /// Writes a receipt, honouring the cells that are reserved, for closing
    /// authority or for an admission that has not committed its receipt yet.
    ///
    /// Returns the sequence written, or zero when the receipt could not be
    /// written at all; in that case the loss is counted.
    pub fn write(&mut self, record: ReceiptRecord) -> (sequence: u64)
        requires
            old(self).wf(),
        ensures
            final(self).wrote(*old(self), record, false),
            sequence == if old(self)@.takes(record.kind, false) {
                old(self).next_sequence
            } else {
                0
            },
    {
        let closing = is_closing(record.kind);
        let limit: usize = if closing {
            CONTROL_LOG_CAPACITY
        } else {
            self.ordinary_capacity()
        };
        assert(self@.live.len() == self.count);
        if self.count + self.pending_reservations as usize >= limit {
            if closing {
                if self.coalesced < u32::MAX {
                    self.coalesced += 1;
                }
            } else {
                if self.lost < u32::MAX {
                    self.lost += 1;
                }
            }
            assert(self.live() =~= old(self).live());
            return 0;
        }
        self.append(record)
    }

    /// Stamps a receipt and appends it.
    fn append(&mut self, record: ReceiptRecord) -> (sequence: u64)
        requires
            old(self).wf(),
            old(self).count + old(self).pending_reservations < CONTROL_LOG_CAPACITY,
        ensures
            final(self).wf(),
            final(self).same_log(*old(self)),
            final(self).pending_reservations == old(self).pending_reservations,
            final(self).live() == old(self).live().push(
                ReceiptRecord {
                    schema: RECEIPT_SCHEMA,
                    sequence: old(self).next_sequence,
                    ..record
                },
            ),
            final(self).next_sequence == if old(self).next_sequence < u64::MAX {
                (old(self).next_sequence + 1) as u64
            } else {
                u64::MAX
            },
            final(self).lost == old(self).lost,
            final(self).coalesced == old(self).coalesced,
            sequence == old(self).next_sequence,
    {
        let sequence: u64 = self.next_sequence;
        let stamped = ReceiptRecord { schema: RECEIPT_SCHEMA, sequence, ..record };
        self.push(stamped);
        let ghost pushed = *self;
        if self.next_sequence < u64::MAX {
            self.next_sequence += 1;
        }
        proof {
            assert(self.live() =~= pushed.live());
            let before = old(self).live();
            assert(self.live() =~= before.push(stamped));
            assert forall|i: int, j: int| 0 <= i < j < self.count implies {
                ||| (#[trigger] self.live()[i]).sequence < (#[trigger] self.live()[j]).sequence
                ||| self.live()[j].sequence == u64::MAX
            } by {
                assert(self.live()[i] == before[i]);
                if j < before.len() {
                    assert(self.live()[j] == before[j]);
                }
            }
            assert forall|i: int| 0 <= i < self.count implies (
            #[trigger] self.live()[i]).sequence < self.next_sequence || self.next_sequence
                == u64::MAX by {
                if i < before.len() {
                    assert(self.live()[i] == before[i]);
                }
            }
            if before.len() > 0 {
                assert(self.live()[0] == before[0]);
            }
        }
        sequence
    }

    /// Copies up to `most` records, oldest first, without consuming them.
    pub fn read(&self, most: usize) -> (out: Vec<ReceiptRecord>)
        requires
            self.wf(),
        ensures
            out@ == self.live().take(
                if most < self.count {
                    most as int
                } else {
                    self.count as int
                },
            ),
    {
        let take: usize = if most < self.count {
            most
        } else {
            self.count
        };
        let mut out: Vec<ReceiptRecord> = Vec::new();
        for offset in 0..take
            invariant
                self.wf(),
                take <= self.count,
                out@ == self.live().take(offset as int),
        {
            let index: usize = (self.head + offset) % CONTROL_LOG_CAPACITY;
            out.push(self.records[index]);
            assert(out@ =~= self.live().take(offset + 1));
        }
        out
    }

    /// Drops every leading record whose sequence is at most `sequence` and
    /// returns how many there were.
    pub fn acknowledge(&mut self, sequence: u64) -> (dropped: usize)
        requires
            old(self).wf(),
        ensures
            final(self).wf(),
            dropped == acknowledged(old(self).live(), sequence),
            dropped <= old(self).count,
            final(self).live() == old(self).live().skip(dropped as int),
            final(self).same_log(*old(self)),
            final(self).next_sequence == old(self).next_sequence,
            final(self).lost == old(self).lost,
            final(self).coalesced == old(self).coalesced,
            final(self).pending_reservations == old(self).pending_reservations,
    {
        let mut dropped: usize = 0;
        let ghost before = self.live();
        assert(before.skip(0) =~= before);
        while self.count > 0 && self.records[self.head].sequence <= sequence
            invariant
                self.head < CONTROL_LOG_CAPACITY,
                self.count <= CONTROL_LOG_CAPACITY,
                before == old(self).live(),
                dropped + self.count == before.len(),
                before.len() == old(self).count,
                old(self).count <= CONTROL_LOG_CAPACITY,
                self.live() == before.skip(dropped as int),
                acknowledged(before, sequence) == dropped + acknowledged(
                    before.skip(dropped as int),
                    sequence,
                ),
                self.same_log(*old(self)),
                self.next_sequence == old(self).next_sequence,
                self.lost == old(self).lost,
                self.coalesced == old(self).coalesced,
                self.pending_reservations == old(self).pending_reservations,
            decreases self.count,
        {
            let ghost here = self.live();
            assert(here[0] == self.records@[self.head as int]);
            self.head = (self.head + 1) % CONTROL_LOG_CAPACITY;
            self.count -= 1;
            dropped += 1;
            assert(self.live() =~= here.drop_first()) by {
                assert forall|i: int| 0 <= i < self.count implies self.live()[i]
                    == here.drop_first()[i] by {}
            }
            assert(before.skip(dropped - 1).drop_first() =~= before.skip(dropped as int));
        }
        proof {
            if self.count > 0 {
                assert(self.live()[0] == self.records@[self.head as int]);
            }
            assert forall|i: int| 0 <= i < self.count implies #[trigger] self.live()[i]
                == before[dropped + i] by {}
        }
        let ghost here = self.live();
        self.oldest_sequence = if self.count == 0 {
            self.next_sequence
        } else {
            self.records[self.head].sequence
        };
        assert(self.live() =~= here);
        dropped
    }
}

/// However much ordinary traffic a log takes, it never reaches into the cells
/// reserved for closing authority: an ordinary receipt is written, and a cell
/// for one reserved, only while fewer cells than the ordinary capacity are
/// occupied or reserved.
pub proof fn ordinary_receipts_leave_reserved_cells(
    before: ControlLog,
    after: ControlLog,
    record: ReceiptRecord,
    reserved: bool,
)
    requires
        after.wrote(before, record, reserved),
        !closes(record.kind),
        before.count + before.pending_reservations <= CONTROL_LOG_CAPACITY - CONTROL_LOG_RESERVED,
    ensures
        after.count + after.pending_reservations <= CONTROL_LOG_CAPACITY - CONTROL_LOG_RESERVED,
        CONTROL_LOG_CAPACITY - after.count >= CONTROL_LOG_RESERVED,
{
    assert(after.count == after.live().len());
    assert(before.count == before.live().len());
}

/// A closing receipt is recorded whenever ordinary traffic is all there is.
pub proof fn closing_receipts_fit(before: ControlLog, after: ControlLog, record: ReceiptRecord)
    requires
        after.wrote(before, record, false),
        closes(record.kind),
        before.count + before.pending_reservations <= CONTROL_LOG_CAPACITY - CONTROL_LOG_RESERVED,
    ensures
        after.live().len() == before.live().len() + 1,
        after.live().last().sequence == before.next_sequence,
        after.coalesced == before.coalesced,
{
    assert(before.count == before.live().len());
}

/// Writing never changes or drops a receipt that is already there.
pub proof fn the_log_does_not_overwrite(
    before: ControlLog,
    after: ControlLog,
    record: ReceiptRecord,
    reserved: bool,
    i: int,
)
    requires
        after.wrote(before, record, reserved),
        0 <= i < before.live().len(),
    ensures
        i < after.live().len(),
        after.live()[i] == before.live()[i],
{
}

/// Coverage is bought in advance: once a cell has been reserved, its receipt is
/// recorded and none is lost by it, whatever was written in between.
pub proof fn reserved_receipts_are_recorded(
    log: LogModel,
    between: Seq<ReceiptRecord>,
    record: ReceiptRecord,
)
    requires
        log.can_reserve(),
    ensures
        ({
            let before = log.reserved().all_written(between);
            let after = before.recorded(record, true);
            &&& after.live == before.live.push(
                ReceiptRecord { schema: RECEIPT_SCHEMA, sequence: before.next_sequence, ..record },
            )
            &&& after.lost == before.lost
            &&& after.coalesced == before.coalesced
            &&& after.pending == log.pending
        }),
{
    writing_keeps_reservations(log.reserved(), between);
}

proof fn writing_keeps_reservations(log: LogModel, records: Seq<ReceiptRecord>)
    ensures
        log.all_written(records).pending == log.pending,
    decreases records.len(),
{
    if records.len() > 0 {
        writing_keeps_reservations(log, records.drop_last());
    }
}

} // verus!
