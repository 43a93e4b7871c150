//! Diagnostic plane: the counts behind the records.
//!
//! Records are numbered in one sequence, continued from the loader's, so a gap
//! is detectable. The plane counts what it costs: records, bytes, and the
//! processor time spent writing them. Trace records can be withheld; they are
//! then counted, not lost silently.

use vstd::prelude::*;

use crate::limits::MAX_CPUS;

verus! {

/// Format version of the record line.
pub const FORMAT: &'static str = "THLX1";

/// The counts of the plane.
#[derive(Clone, Copy, Debug)]
pub struct Plane {
    /// Sequence number of the next record.
    pub seq: u64,
    /// Sequence number of the first record.
    pub first: u64,
    /// Bytes written, line terminators counted.
    pub bytes: u64,
    /// Time-stamp counter cycles spent writing records.
    pub cycles: u64,
    /// Whether trace records are written. Summaries always are.
    pub trace: bool,
    /// Trace records withheld, by the processor that withheld them.
    pub withheld: [u64; MAX_CPUS],
}

/// Newlines among the first `n` bytes.
pub open spec fn newlines(text: Seq<u8>, n: int) -> int
    decreases n,
{
    if n <= 0 {
        0
    } else if text[n - 1] == 0x0A {
        newlines(text, n - 1) + 1
    } else {
        newlines(text, n - 1)
    }
}

/// Bytes a text takes on the line: a newline takes two.
pub fn line_bytes(text: &[u8]) -> (count: u64)
    requires
        text@.len() <= 0x7FFF_FFFF,
    ensures
        count == text@.len() + newlines(text@, text@.len() as int),
{
    let mut extra: u64 = 0;
    for i in 0..text.len()
        invariant
            text@.len() <= 0x7FFF_FFFF,
            extra <= i,
            extra == newlines(text@, i as int),
    {
        if text[i] == 0x0A {
            extra += 1;
        }
    }
    text.len() as u64 + extra
}

/// What is counted is what goes over the line.
pub proof fn counted_is_sent(text: Seq<u8>)
    ensures
        crate::arch::x86_64::serial::expanded(text).len() == text.len() + newlines(
            text,
            text.len() as int,
        ),
    decreases text.len(),
{
    if text.len() > 0 {
        counted_is_sent(text.drop_last());
        newlines_of_prefix(text, text.len() - 1);
    }
}

proof fn newlines_of_prefix(text: Seq<u8>, n: int)
    requires
        0 <= n < text.len(),
    ensures
        newlines(text.drop_last(), n) == newlines(text, n),
    decreases n,
{
    if n > 0 {
        newlines_of_prefix(text, n - 1);
    }
}

/// Records withheld by the first `n` processors, as far as a word counts.
pub open spec fn withheld_by(withheld: Seq<u64>, n: int) -> u64
    decreases n,
{
    if n <= 0 {
        0
    } else {
        let below = withheld_by(withheld, n - 1);
        if below + withheld[n - 1] > u64::MAX {
            u64::MAX
        } else {
            (below + withheld[n - 1]) as u64
        }
    }
}

impl Plane {
    /// Continues the loader's sequence.
    pub fn init(first_seq: u64) -> (plane: Plane)
        ensures
            plane.seq == first_seq,
            plane.first == first_seq,
            plane.bytes == 0,
            plane.cycles == 0,
            plane.trace,
            forall|i: int| 0 <= i < MAX_CPUS ==> #[trigger] plane.withheld@[i] == 0,
    {
        Plane {
            seq: first_seq,
            first: first_seq,
            bytes: 0,
            cycles: 0,
            trace: true,
            withheld: [0; MAX_CPUS],
        }
    }

    /// Takes the sequence number of a record, which is used up whether or not
    /// the record can be written.
    pub fn take(&mut self) -> (seq: u64)
        ensures
            seq == old(self).seq,
            final(self).seq == if old(self).seq == u64::MAX {
                u64::MAX
            } else {
                (old(self).seq + 1) as u64
            },
            final(self).first == old(self).first,
            final(self).bytes == old(self).bytes,
            final(self).cycles == old(self).cycles,
            final(self).trace == old(self).trace,
            final(self).withheld == old(self).withheld,
    {
        let seq: u64 = self.seq;
        self.seq = seq.saturating_add(1);
        seq
    }

    /// Counts what a record cost.
    pub fn charge(&mut self, bytes: u64, cycles: u64)
        ensures
            final(self).seq == old(self).seq,
            final(self).first == old(self).first,
            final(self).bytes == if old(self).bytes + bytes > u64::MAX {
                u64::MAX
            } else {
                (old(self).bytes + bytes) as u64
            },
            final(self).cycles == if old(self).cycles + cycles > u64::MAX {
                u64::MAX
            } else {
                (old(self).cycles + cycles) as u64
            },
            final(self).trace == old(self).trace,
            final(self).withheld == old(self).withheld,
    {
        self.bytes = self.bytes.saturating_add(bytes);
        self.cycles = self.cycles.saturating_add(cycles);
    }

    /// Turns trace records on or off.
    pub fn set_trace(&mut self, enabled: bool)
        ensures
            *final(self) == (Plane { trace: enabled, ..*old(self) }),
    {
        self.trace = enabled;
    }

    /// Whether trace records are being written.
    pub fn trace_enabled(&self) -> (yes: bool)
        ensures
            yes == self.trace,
    {
        self.trace
    }

    /// Counts a trace record that was not written.
    pub fn withhold(&mut self, cpu: usize)
        requires
            cpu < MAX_CPUS,
        ensures
            final(self).withheld@ == old(self).withheld@.update(
                cpu as int,
                if old(self).withheld@[cpu as int] == u64::MAX {
                    u64::MAX
                } else {
                    (old(self).withheld@[cpu as int] + 1) as u64
                },
            ),
            final(self).seq == old(self).seq,
            final(self).first == old(self).first,
            final(self).bytes == old(self).bytes,
            final(self).cycles == old(self).cycles,
            final(self).trace == old(self).trace,
    {
        let count: u64 = self.withheld[cpu];
        self.withheld[cpu] = count.saturating_add(1);
    }

    /// What the plane has cost so far: records, bytes, cycles.
    pub fn stats(&self) -> (cost: (u64, u64, u64))
        requires
            self.first <= self.seq,
        ensures
            cost == ((self.seq - self.first) as u64, self.bytes, self.cycles),
    {
        (self.seq - self.first, self.bytes, self.cycles)
    }

    /// Trace records withheld by all processors.
    pub fn total_withheld(&self) -> (count: u64)
        ensures
            count == withheld_by(self.withheld@, MAX_CPUS as int),
    {
        let mut count: u64 = 0;
        for i in 0..MAX_CPUS
            invariant
                count == withheld_by(self.withheld@, i as int),
        {
            count = count.saturating_add(self.withheld[i]);
        }
        count
    }
}

/// Nanoseconds that cycles take; zero before the frequency is known.
pub fn write_ns(cycles: u64, hz: u64) -> (ns: u64)
    ensures
        ns == if hz == 0 {
            0
        } else {
            (cycles * 1_000_000_000 / hz as int) % 0x1_0000_0000_0000_0000
        },
{
    if hz == 0 {
        return 0;
    }
    let wide: u128 = cycles as u128 * 1_000_000_000 / hz as u128;
    (wide % 0x1_0000_0000_0000_0000) as u64
}

} // verus!
