//! What the firmware tables say: every processor they list is recorded once, and
//! nothing that they do not list.

use vstd::prelude::*;

use crate::acpi::{
    byte_sum, find_cpu, madt_structure, madt_walk, mcfg_walk, table_at, with_cpu, with_madt,
    with_mcfg, CpuEntry, Description,
};
use crate::arch::x86_64::lapic::measured;
use crate::bytes::le;
use crate::limits::MAX_CPUS;

verus! {

/// The structure at `at` follows the one at `from`, each as long as it says.
pub open spec fn follows(body: Seq<u8>, from: int, at: int) -> bool
    decreases at - from,
{
    ||| from == at
    ||| body[from + 1] >= 2 && from + body[from + 1] <= at && follows(
        body,
        from + body[from + 1],
        at,
    )
}

/// A processor structure stands at `at`: which processor it names, and whether the
/// processor can be used.
pub open spec fn names(body: Seq<u8>, at: int, id: u32, enabled: bool) -> bool {
    &&& 0 <= at
    &&& at + 2 <= body.len()
    &&& at + body[at + 1] <= body.len()
    &&& {
        ||| body[at] == 0 && body[at + 1] >= 8 && body[at + 3] as u32 == id && (le(
            body,
            at + 4,
            4,
        ) % 2 == 1) == enabled
        ||| body[at] == 9 && body[at + 1] >= 16 && le(body, at + 4, 4) as u32 == id && (le(
            body,
            at + 8,
            4,
        ) % 2 == 1) == enabled
    }
}

/// A processor is on record.
pub open spec fn on_record(cpus: Seq<CpuEntry>, id: u32) -> bool {
    exists|i: int| 0 <= i < cpus.len() && (#[trigger] cpus[i]).apic_id == id
}

/// A processor is on record as one that can be used.
pub open spec fn usable(cpus: Seq<CpuEntry>, id: u32) -> bool {
    exists|i: int|
        0 <= i < cpus.len() && (#[trigger] cpus[i]).apic_id == id && cpus[i].enabled
}

proof fn the_search_finds(cpus: Seq<CpuEntry>, id: u32)
    ensures
        0 <= find_cpu(cpus, id) <= cpus.len(),
        find_cpu(cpus, id) < cpus.len() ==> cpus[find_cpu(cpus, id)].apic_id == id,
        on_record(cpus, id) == (find_cpu(cpus, id) < cpus.len()),
    decreases cpus.len(),
{
    if cpus.len() > 0 {
        the_search_finds(cpus.drop_last(), id);
        assert(forall|i: int|
            0 <= i < cpus.len() - 1 ==> cpus.drop_last()[i] == #[trigger] cpus[i]);
        if find_cpu(cpus, id) < cpus.len() {
            assert(cpus[find_cpu(cpus, id)].apic_id == id);
        }
        if on_record(cpus, id) {
            let i = choose|i: int| 0 <= i < cpus.len() && (#[trigger] cpus[i]).apic_id == id;
            if i < cpus.len() - 1 {
                assert(cpus.drop_last()[i].apic_id == id);
            }
        }
    }
}

/// A processor is recorded once, under its identifier; what was on record stays,
/// and one that was usable stays so. Only where there is no room is it counted
/// instead.
pub proof fn a_processor_is_recorded_once(d: Description, cpu: CpuEntry)
    ensures
        on_record(d.cpus, cpu.apic_id) || d.cpus.len() < MAX_CPUS ==> on_record(
            with_cpu(d, cpu).cpus,
            cpu.apic_id,
        ) && with_cpu(d, cpu).dropped == d.dropped,
        cpu.enabled && (on_record(d.cpus, cpu.apic_id) || d.cpus.len() < MAX_CPUS) ==> usable(
            with_cpu(d, cpu).cpus,
            cpu.apic_id,
        ),
        !on_record(d.cpus, cpu.apic_id) && d.cpus.len() >= MAX_CPUS ==> with_cpu(d, cpu).cpus
            == d.cpus && with_cpu(d, cpu).dropped == d.dropped + 1,
        with_cpu(d, cpu).cpus.len() == d.cpus.len() + if on_record(d.cpus, cpu.apic_id)
            || d.cpus.len() >= MAX_CPUS {
            0int
        } else {
            1
        },
        forall|id: u32|
            #![trigger on_record(with_cpu(d, cpu).cpus, id)]
            (on_record(d.cpus, id) ==> on_record(with_cpu(d, cpu).cpus, id)) && (on_record(
                with_cpu(d, cpu).cpus,
                id,
            ) ==> on_record(d.cpus, id) || id == cpu.apic_id),
        forall|id: u32|
            #![trigger usable(with_cpu(d, cpu).cpus, id)]
            (usable(d.cpus, id) ==> usable(with_cpu(d, cpu).cpus, id)) && (usable(
                with_cpu(d, cpu).cpus,
                id,
            ) ==> usable(d.cpus, id) || id == cpu.apic_id && cpu.enabled),
{
    the_search_finds(d.cpus, cpu.apic_id);
    let at = find_cpu(d.cpus, cpu.apic_id);
    let after = with_cpu(d, cpu).cpus;
    if at < d.cpus.len() {
        assert(after[at].apic_id == cpu.apic_id);
    } else if d.cpus.len() < MAX_CPUS {
        assert(after[d.cpus.len() as int] == cpu);
    }
    assert forall|id: u32|
        #![trigger on_record(after, id)]
        (on_record(d.cpus, id) ==> on_record(after, id)) && (on_record(after, id) ==> on_record(
            d.cpus,
            id,
        ) || id == cpu.apic_id) by {
        if on_record(d.cpus, id) {
            let i = choose|i: int| 0 <= i < d.cpus.len() && (#[trigger] d.cpus[i]).apic_id == id;
            assert(after[i].apic_id == id);
        }
        if on_record(after, id) {
            let i = choose|i: int| 0 <= i < after.len() && (#[trigger] after[i]).apic_id == id;
            if i < d.cpus.len() {
                assert(d.cpus[i].apic_id == id);
            }
        }
    }
    assert forall|id: u32|
        #![trigger usable(after, id)]
        (usable(d.cpus, id) ==> usable(after, id)) && (usable(after, id) ==> usable(d.cpus, id)
            || id == cpu.apic_id && cpu.enabled) by {
        if usable(d.cpus, id) {
            let i = choose|i: int|
                0 <= i < d.cpus.len() && (#[trigger] d.cpus[i]).apic_id == id
                    && d.cpus[i].enabled;
            assert(after[i].apic_id == id && after[i].enabled);
        }
        if usable(after, id) {
            let i = choose|i: int|
                0 <= i < after.len() && (#[trigger] after[i]).apic_id == id && after[i].enabled;
            if i < d.cpus.len() {
                assert(d.cpus[i].apic_id == id);
            }
        }
    }
}

proof fn a_structure_only_adds(d: Description, body: Seq<u8>, at: int, id: u32)
    requires
        0 <= at,
        at + 2 <= body.len(),
        at + body[at + 1] <= body.len(),
    ensures
        on_record(d.cpus, id) ==> on_record(madt_structure(d, body, at).cpus, id),
        usable(d.cpus, id) ==> usable(madt_structure(d, body, at).cpus, id),
        on_record(madt_structure(d, body, at).cpus, id) ==> on_record(d.cpus, id) || names(
            body,
            at,
            id,
            true,
        ) || names(body, at, id, false),
        usable(madt_structure(d, body, at).cpus, id) ==> usable(d.cpus, id) || names(
            body,
            at,
            id,
            true,
        ),
        names(body, at, id, true) ==> usable(madt_structure(d, body, at).cpus, id)
            || d.cpus.len() >= MAX_CPUS,
        names(body, at, id, false) ==> on_record(madt_structure(d, body, at).cpus, id)
            || d.cpus.len() >= MAX_CPUS,
        d.cpus.len() <= madt_structure(d, body, at).cpus.len(),
{
    a_processor_is_recorded_once(
        d,
        CpuEntry {
            apic_id: body[at + 3] as u32,
            acpi_uid: body[at + 2] as u32,
            enabled: le(body, at + 4, 4) % 2 == 1,
            x2apic: false,
        },
    );
    a_processor_is_recorded_once(
        d,
        CpuEntry {
            apic_id: le(body, at + 4, 4) as u32,
            acpi_uid: le(body, at + 12, 4) as u32,
            enabled: le(body, at + 8, 4) % 2 == 1,
            x2apic: true,
        },
    );
}

proof fn a_walk_only_adds(d: Description, body: Seq<u8>, from: int, id: u32)
    requires
        0 <= from,
    ensures
        on_record(d.cpus, id) ==> on_record(madt_walk(d, body, from).cpus, id),
        usable(d.cpus, id) ==> usable(madt_walk(d, body, from).cpus, id),
        d.cpus.len() <= madt_walk(d, body, from).cpus.len(),
    decreases body.len() - from,
{
    if from + 2 <= body.len() && body[from + 1] >= 2 && from + body[from + 1] <= body.len() {
        a_structure_only_adds(d, body, from, id);
        a_walk_only_adds(madt_structure(d, body, from), body, from + body[from + 1], id);
    }
}

proof fn a_walk_meets(
    d: Description,
    body: Seq<u8>,
    from: int,
    at: int,
    id: u32,
    enabled: bool,
)
    requires
        0 <= from <= at,
        follows(body, from, at),
        names(body, at, id, enabled),
    ensures
        on_record(madt_walk(d, body, from).cpus, id) || madt_walk(d, body, from).cpus.len()
            >= MAX_CPUS,
        enabled ==> usable(madt_walk(d, body, from).cpus, id) || madt_walk(
            d,
            body,
            from,
        ).cpus.len() >= MAX_CPUS,
    decreases at - from,
{
    if from == at {
        a_structure_only_adds(d, body, at, id);
        let next = madt_structure(d, body, at);
        a_walk_only_adds(next, body, at + body[at + 1], id);
        if usable(next.cpus, id) {
            let i = choose|i: int|
                0 <= i < next.cpus.len() && (#[trigger] next.cpus[i]).apic_id == id
                    && next.cpus[i].enabled;
            assert(on_record(next.cpus, id));
        }
    } else {
        a_walk_meets(
            madt_structure(d, body, from),
            body,
            from + body[from + 1],
            at,
            id,
            enabled,
        );
    }
}

/// Every processor that the processor table lists is on record, and usable where
/// the table says so, unless the record is full.
pub proof fn every_listed_processor_is_recorded(
    d: Description,
    body: Seq<u8>,
    at: int,
    id: u32,
    enabled: bool,
)
    requires
        44 <= at,
        follows(body, 44, at),
        names(body, at, id, enabled),
    ensures
        on_record(with_madt(d, body).cpus, id) || with_madt(d, body).cpus.len() >= MAX_CPUS,
        enabled ==> usable(with_madt(d, body).cpus, id) || with_madt(d, body).cpus.len()
            >= MAX_CPUS,
{
    a_walk_meets(Description { lapic_phys: le(body, 36, 4), ..d }, body, 44, at, id, enabled);
}

/// The table lists a processor somewhere from `from` on.
pub open spec fn listed(body: Seq<u8>, from: int, id: u32, enabled: bool) -> bool {
    exists|at: int| from <= at && #[trigger] names(body, at, id, enabled)
}

proof fn a_walk_adds_what_is_listed(d: Description, body: Seq<u8>, from: int, id: u32)
    requires
        0 <= from,
    ensures
        on_record(madt_walk(d, body, from).cpus, id) ==> on_record(d.cpus, id) || listed(
            body,
            from,
            id,
            true,
        ) || listed(body, from, id, false),
        usable(madt_walk(d, body, from).cpus, id) ==> usable(d.cpus, id) || listed(
            body,
            from,
            id,
            true,
        ),
    decreases body.len() - from,
{
    if from + 2 <= body.len() && body[from + 1] >= 2 && from + body[from + 1] <= body.len() {
        a_structure_only_adds(d, body, from, id);
        a_walk_adds_what_is_listed(
            madt_structure(d, body, from),
            body,
            from + body[from + 1],
            id,
        );
    }
}

/// A processor that the record did not have is one that the table lists, and it is
/// usable only where a structure of the table says so.
pub proof fn only_listed_processors_are_recorded(d: Description, body: Seq<u8>, id: u32)
    ensures
        on_record(with_madt(d, body).cpus, id) ==> on_record(d.cpus, id) || listed(
            body,
            44,
            id,
            true,
        ) || listed(body, 44, id, false),
        usable(with_madt(d, body).cpus, id) ==> usable(d.cpus, id) || listed(
            body,
            44,
            id,
            true,
        ),
{
    if body.len() >= 44 {
        a_walk_adds_what_is_listed(
            Description { lapic_phys: le(body, 36, 4), ..d },
            body,
            44,
            id,
        );
    }
}

/// The allocation at `at` is of segment zero, names a window, and covers buses.
pub open spec fn allocates(body: Seq<u8>, at: int) -> bool {
    &&& body[at + 8] == 0 && body[at + 9] == 0
    &&& body[at + 10] <= body[at + 11]
    &&& le(body, at, 8) != 0
}

proof fn the_walk_takes_the_first(d: Description, body: Seq<u8>, from: int, k: int)
    requires
        0 <= from,
        0 <= k,
        from + 16 * k + 16 <= body.len(),
        d.ecam.0 == 0,
        allocates(body, from + 16 * k),
        forall|j: int| 0 <= j < k ==> !allocates(body, #[trigger] (from + 16 * j)),
    ensures
        mcfg_walk(d, body, from).ecam == (
            le(body, from + 16 * k, 8),
            body[from + 16 * k + 10],
            body[from + 16 * k + 11],
        ),
    decreases k,
{
    assert(le(body, from + 8, 2) == body[from + 8] + 256 * body[from + 9]) by {
        reveal_with_fuel(le, 3);
    }
    let start = body[from + 10];
    let end = body[from + 11];
    let next = if le(body, from + 8, 2) == 0 && d.ecam.0 == 0 && start <= end {
        Description { ecam: (le(body, from, 8), start, end), ..d }
    } else {
        d
    };
    if k == 0 {
        the_walk_keeps_the_window(next, body, from + 16);
    } else {
        assert(!allocates(body, from + 16 * 0));
        assert(next.ecam.0 == 0);
        assert forall|j: int| 0 <= j < k - 1 implies !allocates(
            body,
            #[trigger] (from + 16 + 16 * j),
        ) by {
            assert(from + 16 + 16 * j == from + 16 * (j + 1));
            assert(!allocates(body, from + 16 * (j + 1)));
        }
        assert(from + 16 + 16 * (k - 1) == from + 16 * k);
        the_walk_takes_the_first(next, body, from + 16, k - 1);
    }
}

proof fn the_walk_keeps_the_window(d: Description, body: Seq<u8>, from: int)
    requires
        d.ecam.0 != 0,
    ensures
        mcfg_walk(d, body, from).ecam == d.ecam,
    decreases body.len() - from,
{
    if from + 16 <= body.len() {
        the_walk_keeps_the_window(d, body, from + 16);
    }
}

/// The configuration window is that of the first allocation of segment zero: its
/// base, its first bus and its last.
pub proof fn the_first_window_counts(d: Description, body: Seq<u8>, k: int)
    requires
        0 <= k,
        44 + 16 * k + 16 <= body.len(),
        d.ecam.0 == 0,
        allocates(body, 44 + 16 * k),
        forall|j: int| 0 <= j < k ==> !allocates(body, #[trigger] (44 + 16 * j)),
    ensures
        with_mcfg(d, body).ecam == (
            le(body, 44 + 16 * k, 8),
            body[44 + 16 * k + 10],
            body[44 + 16 * k + 11],
        ),
{
    the_walk_takes_the_first(d, body, 44, k);
}

proof fn a_changed_byte_shows(s: Seq<u8>, i: int, b: u8)
    requires
        0 <= i < s.len(),
    ensures
        byte_sum(s.update(i, b)) == byte_sum(s) - s[i] + b,
    decreases s.len(),
{
    let t = s.update(i, b);
    if i == s.len() - 1 {
        assert(t.drop_last() =~= s.drop_last());
    } else {
        assert(t.drop_last() =~= s.drop_last().update(i, b));
        a_changed_byte_shows(s.drop_last(), i, b);
    }
}

/// A table that is taken lies in memory, as long as its header says. Where one byte
/// of it is another, outside the length in the header, it is not taken.
pub proof fn a_spoilt_table_is_not_taken(memory: Seq<u8>, phys: int, i: int, b: u8)
    requires
        0 <= phys,
        table_at(memory, phys) is Some,
        0 <= i < le(memory, phys + 4, 4),
        !(4 <= i < 8),
        b != memory[phys + i],
    ensures
        0 < phys,
        phys + le(memory, phys + 4, 4) <= memory.len(),
        table_at(memory, phys)->0 == memory.subrange(phys, phys + le(memory, phys + 4, 4)),
        table_at(memory.update(phys + i, b), phys) is None,
{
    let spoilt = memory.update(phys + i, b);
    assert(le(spoilt, phys + 4, 4) == le(memory, phys + 4, 4)) by {
        reveal_with_fuel(le, 5);
    }
    let length = le(memory, phys + 4, 4) as int;
    let table = memory.subrange(phys, phys + length);
    assert(spoilt.subrange(phys, phys + length) =~= table.update(i, b));
    a_changed_byte_shows(table, i, b);
}

/// A measurement against the reference timer, which ticks 1 193 182 times a second:
/// the window is the time that its ticks take, and a frequency is the ticks counted
/// in the window per second, both rounded down.
pub proof fn a_frequency_is_ticks_per_second(pit_ticks: u16, remaining: u32, tsc_ticks: u64)
    requires
        tsc_ticks <= 18_446_744_073,
        pit_ticks > 0,
    ensures
        ({
            let c = measured(pit_ticks as u64, remaining, tsc_ticks);
            let counted = 0xFFFF_FFFF - remaining;
            &&& c.window_ns * 1_193_182 <= pit_ticks * 1_000_000_000 < (c.window_ns + 1)
                * 1_193_182
            &&& c.lapic_hz * c.window_ns <= counted * 1_000_000_000 < (c.lapic_hz + 1)
                * c.window_ns
            &&& c.tsc_hz * c.window_ns <= tsc_ticks * 1_000_000_000 < (c.tsc_hz + 1)
                * c.window_ns
        }),
{
    let window = pit_ticks * 1_000_000_000 / 1_193_182int;
    assert(0 < window <= 0xFFFF * 1_000_000_000);
    let counted = (0xFFFF_FFFF - remaining) * 1_000_000_000;
    let ticked = tsc_ticks * 1_000_000_000;
    vstd::arithmetic::div_mod::lemma_fundamental_div_mod(counted, window);
    vstd::arithmetic::div_mod::lemma_fundamental_div_mod(ticked, window);
    vstd::arithmetic::div_mod::lemma_mod_bound(counted, window);
    vstd::arithmetic::div_mod::lemma_mod_bound(ticked, window);
    vstd::arithmetic::div_mod::lemma_div_is_ordered_by_denominator(counted, 1, window);
    vstd::arithmetic::div_mod::lemma_div_is_ordered_by_denominator(ticked, 1, window);
    assert(0 <= counted / window <= 0xFFFF_FFFF_FFFF_FFFF);
    assert(0 <= ticked / window <= 0xFFFF_FFFF_FFFF_FFFF);
    assert((counted / window) * window == window * (counted / window)) by (nonlinear_arith);
    assert((ticked / window) * window == window * (ticked / window)) by (nonlinear_arith);
    assert((counted / window + 1) * window == window * (counted / window) + window)
        by (nonlinear_arith);
    assert((ticked / window + 1) * window == window * (ticked / window) + window)
        by (nonlinear_arith);
}

} // verus!
