//! Firmware tables: what the firmware says the machine has.
//!
//! Three answers are taken from the firmware and no more: which processors
//! exist and by what identity, where the configuration space of the devices is
//! mapped, and whether a DMA remapping unit is described at all.
//!
//! Every table is validated before it is believed: its address and declared
//! length against the mapped window, its signature, and its byte checksum. A
//! table that fails any of those is discarded whole.

use vstd::prelude::*;

use vstd::slice::slice_subrange;

use crate::bytes::{le, read_u16, read_u32, read_u64};
use crate::limits::MAX_CPUS;

verus! {

/// Bytes of the header every system description table starts with.
pub const SDT_HEADER_LEN: usize = 36;

/// Largest table the kernel will read. A longer declared length means that the
/// header is wrong.
pub const MAX_TABLE_LEN: usize = 256 * 1024;

/// Bytes of the root pointer structure that are read.
pub const RSDP_LEN: usize = 36;

/// Bytes of the root pointer structure its first checksum covers.
pub const RSDP_V1_LEN: usize = 20;

/// Largest extended root pointer structure accepted.
pub const MAX_RSDP_LEN: usize = 4096;

/// Bytes of the processor table before its first structure.
pub const MADT_HEADER_LEN: usize = 44;

/// Bytes of the configuration space table before its first allocation.
pub const MCFG_HEADER_LEN: usize = 44;

/// Bytes of one allocation of the configuration space table.
pub const MCFG_ENTRY_LEN: usize = 16;

/// Bytes of the remapping table before its first structure.
pub const DMAR_HEADER_LEN: usize = 48;

/// A processor the firmware reports.
#[derive(Clone, Copy, Debug, PartialEq, Eq, Structural)]
pub struct CpuEntry {
    /// Local APIC identifier. Not an index and not dense.
    pub apic_id: u32,
    /// Firmware's own processor identifier, kept for diagnostics only.
    pub acpi_uid: u32,
    /// Whether the entry is enabled.
    pub enabled: bool,
    /// Whether the entry came from an x2APIC structure.
    pub x2apic: bool,
}

/// What the firmware described.
#[derive(Clone, Copy, Debug)]
pub struct Platform {
    /// Processors, in firmware order.
    pub cpus: [CpuEntry; MAX_CPUS],
    /// Processors recorded above.
    pub cpu_count: usize,
    /// Processors the firmware listed that did not fit the table.
    pub cpus_dropped: usize,
    /// Enabled entries the firmware listed twice under one identifier.
    pub duplicates: usize,
    /// Physical base of the local APIC register page.
    pub lapic_phys: u64,
    /// Base of the configuration window for bus zero of segment zero, or zero
    /// when none was found.
    pub ecam_base: u64,
    /// First bus the window covers.
    pub ecam_bus_start: u8,
    /// Last bus the window covers.
    pub ecam_bus_end: u8,
    /// Whether a DMA remapping description exists.
    pub dmar_present: bool,
    /// Remapping hardware units described.
    pub dmar_units: usize,
    /// Whether one unit claims to cover every device of its segment.
    pub dmar_include_all: bool,
    /// Tables the walk rejected.
    pub rejected: usize,
}

/// What the firmware described, as mathematical values.
#[verifier::ext_equal]
pub struct Description {
    /// Processors recorded, in firmware order.
    pub cpus: Seq<CpuEntry>,
    /// Processors that did not fit.
    pub dropped: nat,
    /// Enabled entries listed twice.
    pub duplicates: nat,
    /// Physical base of the local APIC register page.
    pub lapic_phys: nat,
    /// Base, first and last bus of the configuration window.
    pub ecam: (nat, u8, u8),
    /// Whether a DMA remapping description exists.
    pub dmar_present: bool,
    /// Remapping hardware units described.
    pub dmar_units: nat,
    /// Whether one unit claims to cover every device of its segment.
    pub dmar_include_all: bool,
    /// Tables rejected.
    pub rejected: nat,
}

impl View for Platform {
    type V = Description;

    open spec fn view(&self) -> Description {
        Description {
            cpus: self.cpus@.take(self.cpu_count as int),
            dropped: self.cpus_dropped as nat,
            duplicates: self.duplicates as nat,
            lapic_phys: self.lapic_phys as nat,
            ecam: (self.ecam_base as nat, self.ecam_bus_start, self.ecam_bus_end),
            dmar_present: self.dmar_present,
            dmar_units: self.dmar_units as nat,
            dmar_include_all: self.dmar_include_all,
            rejected: self.rejected as nat,
        }
    }
}

/// Nothing described yet.
pub open spec fn nothing() -> Description {
    Description {
        cpus: Seq::empty(),
        dropped: 0,
        duplicates: 0,
        lapic_phys: 0,
        ecam: (0, 0, 0),
        dmar_present: false,
        dmar_units: 0,
        dmar_include_all: false,
        rejected: 0,
    }
}

/// Sum of the bytes of `s`.
pub open spec fn byte_sum(s: Seq<u8>) -> nat
    decreases s.len(),
{
    if s.len() == 0 {
        0
    } else {
        byte_sum(s.drop_last()) + s.last() as nat
    }
}

/// Number of enabled processors in `cpus`.
pub open spec fn enabled_count(cpus: Seq<CpuEntry>) -> nat
    decreases cpus.len(),
{
    if cpus.len() == 0 {
        0
    } else {
        enabled_count(cpus.drop_last()) + if cpus.last().enabled {
            1nat
        } else {
            0nat
        }
    }
}

/// No two recorded processors share an identifier.
pub open spec fn distinct_ids(cpus: Seq<CpuEntry>) -> bool {
    forall|i: int, j: int|
        0 <= i < j < cpus.len() ==> (#[trigger] cpus[i]).apic_id != (#[trigger] cpus[j]).apic_id
}

/// First recorded processor with identifier `apic_id`; the length when there is
/// none.
pub open spec fn find_cpu(cpus: Seq<CpuEntry>, apic_id: u32) -> int
    decreases cpus.len(),
{
    if cpus.len() == 0 {
        0
    } else {
        let before = find_cpu(cpus.drop_last(), apic_id);
        if before < cpus.len() - 1 || cpus.last().apic_id == apic_id {
            before
        } else {
            cpus.len() as int
        }
    }
}

/// One more processor structure.
///
/// A processor already recorded under the same identifier is the same
/// processor: its flags accumulate, and a second enabled entry is counted. A
/// new one is recorded while there is room and counted as dropped after that.
pub open spec fn with_cpu(d: Description, cpu: CpuEntry) -> Description {
    let at = find_cpu(d.cpus, cpu.apic_id);
    if at < d.cpus.len() {
        let known = d.cpus[at];
        Description {
            cpus: d.cpus.update(
                at,
                CpuEntry {
                    enabled: known.enabled || cpu.enabled,
                    x2apic: known.x2apic || cpu.x2apic,
                    ..known
                },
            ),
            duplicates: if cpu.enabled && known.enabled {
                d.duplicates + 1
            } else {
                d.duplicates
            },
            ..d
        }
    } else if d.cpus.len() >= MAX_CPUS {
        Description { dropped: d.dropped + 1, ..d }
    } else {
        Description { cpus: d.cpus.push(cpu), ..d }
    }
}

/// The effect of the processor table structure at `offset`.
pub open spec fn madt_structure(d: Description, body: Seq<u8>, offset: int) -> Description {
    let kind = body[offset];
    let length = body[offset + 1];
    if kind == 0 && length >= 8 {
        with_cpu(
            d,
            CpuEntry {
                apic_id: body[offset + 3] as u32,
                acpi_uid: body[offset + 2] as u32,
                enabled: le(body, offset + 4, 4) % 2 == 1,
                x2apic: false,
            },
        )
    } else if kind == 9 && length >= 16 {
        with_cpu(
            d,
            CpuEntry {
                apic_id: le(body, offset + 4, 4) as u32,
                acpi_uid: le(body, offset + 12, 4) as u32,
                enabled: le(body, offset + 8, 4) % 2 == 1,
                x2apic: true,
            },
        )
    } else if kind == 5 && length >= 12 {
        Description { lapic_phys: le(body, offset + 4, 8), ..d }
    } else {
        d
    }
}

/// The effect of the processor table structures from `offset` on. A structure
/// with an impossible length ends the walk and counts as a rejection.
pub open spec fn madt_walk(d: Description, body: Seq<u8>, offset: int) -> Description
    decreases body.len() - offset,
{
    if offset + 2 > body.len() {
        d
    } else if body[offset + 1] < 2 || offset + body[offset + 1] > body.len() {
        Description { rejected: d.rejected + 1, ..d }
    } else {
        madt_walk(madt_structure(d, body, offset), body, offset + body[offset + 1])
    }
}

/// The effect of a processor table.
pub open spec fn with_madt(d: Description, body: Seq<u8>) -> Description {
    if body.len() < MADT_HEADER_LEN {
        Description { rejected: d.rejected + 1, ..d }
    } else {
        madt_walk(
            Description { lapic_phys: le(body, 36, 4), ..d },
            body,
            MADT_HEADER_LEN as int,
        )
    }
}

/// The effect of the configuration space allocations from `offset` on: the
/// first usable allocation of segment zero is the one that counts.
pub open spec fn mcfg_walk(d: Description, body: Seq<u8>, offset: int) -> Description
    decreases body.len() - offset,
{
    if offset + MCFG_ENTRY_LEN > body.len() {
        d
    } else {
        let start = body[offset + 10];
        let end = body[offset + 11];
        let next = if le(body, offset + 8, 2) == 0 && d.ecam.0 == 0 && start <= end {
            Description { ecam: (le(body, offset, 8), start, end), ..d }
        } else {
            d
        };
        mcfg_walk(next, body, offset + MCFG_ENTRY_LEN)
    }
}

/// The effect of a configuration space table.
pub open spec fn with_mcfg(d: Description, body: Seq<u8>) -> Description {
    if body.len() < MCFG_HEADER_LEN {
        Description { rejected: d.rejected + 1, ..d }
    } else {
        mcfg_walk(d, body, MCFG_HEADER_LEN as int)
    }
}

/// The effect of the remapping structures from `offset` on.
pub open spec fn dmar_walk(d: Description, body: Seq<u8>, offset: int) -> Description
    decreases body.len() - offset,
{
    let length = le(body, offset + 2, 2);
    if offset + 4 > body.len() {
        d
    } else if length < 4 || offset + length > body.len() {
        Description { rejected: d.rejected + 1, ..d }
    } else {
        let next = if le(body, offset, 2) == 0 && length >= 16 {
            Description {
                dmar_units: d.dmar_units + 1,
                dmar_include_all: d.dmar_include_all || body[offset + 4] % 2 == 1,
                ..d
            }
        } else {
            d
        };
        dmar_walk(next, body, offset + length)
    }
}

/// The effect of a remapping table.
pub open spec fn with_dmar(d: Description, body: Seq<u8>) -> Description {
    if body.len() < DMAR_HEADER_LEN {
        Description { rejected: d.rejected + 1, ..d }
    } else {
        dmar_walk(Description { dmar_present: true, ..d }, body, DMAR_HEADER_LEN as int)
    }
}

/// The four bytes a table starts with are `a`, `b`, `c`, `e`.
pub open spec fn signed(body: Seq<u8>, a: u8, b: u8, c: u8, e: u8) -> bool {
    body[0] == a && body[1] == b && body[2] == c && body[3] == e
}

/// The valid table at physical address `phys` of the window `memory`.
pub open spec fn table_at(memory: Seq<u8>, phys: int) -> Option<Seq<u8>> {
    if phys == 0 || phys + SDT_HEADER_LEN > memory.len() {
        None
    } else {
        let length = le(memory, phys + 4, 4);
        if length < SDT_HEADER_LEN || length > MAX_TABLE_LEN || phys + length > memory.len() {
            None
        } else if byte_sum(memory.subrange(phys, phys + length)) % 256 != 0 {
            None
        } else {
            Some(memory.subrange(phys, phys + length))
        }
    }
}

/// The effect of a table the root table names.
pub open spec fn with_table(d: Description, child: Option<Seq<u8>>) -> Description {
    match child {
        None => Description { rejected: d.rejected + 1, ..d },
        Some(body) => if signed(body, 0x41, 0x50, 0x49, 0x43) {
            with_madt(d, body)
        } else if signed(body, 0x4D, 0x43, 0x46, 0x47) {
            with_mcfg(d, body)
        } else if signed(body, 0x44, 0x4D, 0x41, 0x52) {
            with_dmar(d, body)
        } else {
            d
        },
    }
}

/// Bytes of one address in the root table.
pub open spec fn stride_of(wide: bool) -> int {
    if wide {
        8
    } else {
        4
    }
}

/// Number of tables the root table names.
pub open spec fn child_count(root: Seq<u8>, wide: bool) -> int {
    (root.len() - SDT_HEADER_LEN) / stride_of(wide)
}

/// Address of the `i`-th table the root table names.
pub open spec fn child_address(root: Seq<u8>, wide: bool, i: int) -> nat {
    le(root, SDT_HEADER_LEN + i * stride_of(wide), stride_of(wide) as nat)
}

/// What the first `n` tables of the root table describe.
pub open spec fn described(memory: Seq<u8>, root: Seq<u8>, wide: bool, n: int) -> Description
    decreases n,
{
    if n <= 0 {
        nothing()
    } else {
        with_table(
            described(memory, root, wide, n - 1),
            table_at(memory, child_address(root, wide, n - 1) as int),
        )
    }
}

/// The eight bytes `RSD PTR ` at `at`.
pub open spec fn has_rsdp_signature(m: Seq<u8>, at: int) -> bool {
    &&& m[at] == 0x52 && m[at + 1] == 0x53 && m[at + 2] == 0x44 && m[at + 3] == 0x20
    &&& m[at + 4] == 0x50 && m[at + 5] == 0x54 && m[at + 6] == 0x52 && m[at + 7] == 0x20
}

/// The root pointer structure at `rsdp` is in the window, is signed, and its
/// first checksum holds.
pub open spec fn rsdp_ok(memory: Seq<u8>, rsdp: int) -> bool {
    &&& rsdp != 0
    &&& rsdp + RSDP_LEN <= memory.len()
    &&& has_rsdp_signature(memory, rsdp)
    &&& byte_sum(memory.subrange(rsdp, rsdp + RSDP_V1_LEN)) % 256 == 0
}

/// The address of the wide root table, zero when the structure gives none that
/// its extended checksum vouches for.
pub open spec fn wide_root(memory: Seq<u8>, rsdp: int) -> nat {
    let length = le(memory, rsdp + 20, 4);
    if memory[rsdp + 15] >= 2 && RSDP_LEN <= length <= MAX_RSDP_LEN && rsdp + length
        <= memory.len() && byte_sum(memory.subrange(rsdp, rsdp + length)) % 256 == 0 {
        le(memory, rsdp + 24, 8)
    } else {
        0
    }
}

/// The root table of the firmware description and whether it is a wide one.
pub open spec fn root_table(memory: Seq<u8>, rsdp: int) -> Option<(Seq<u8>, bool)> {
    if !rsdp_ok(memory, rsdp) {
        None
    } else if wide_root(memory, rsdp) != 0 {
        match table_at(memory, wide_root(memory, rsdp) as int) {
            Some(root) => if signed(root, 0x58, 0x53, 0x44, 0x54) {
                Some((root, true))
            } else {
                None
            },
            None => None,
        }
    } else {
        match table_at(memory, le(memory, rsdp + 16, 4) as int) {
            Some(root) => if signed(root, 0x52, 0x53, 0x44, 0x54) {
                Some((root, false))
            } else {
                None
            },
            None => None,
        }
    }
}

proof fn byte_sum_step(s: Seq<u8>, n: int)
    requires
        0 <= n < s.len(),
    ensures
        byte_sum(s.take(n + 1)) == byte_sum(s.take(n)) + s[n],
{
    assert(s.take(n + 1).drop_last() =~= s.take(n));
}

/// Sum of the bytes of `data` from `start` up to `end`, modulo 256.
fn checksum(data: &[u8], start: usize, end: usize) -> (sum: u8)
    requires
        start <= end <= data@.len(),
    ensures
        sum == byte_sum(data@.subrange(start as int, end as int)) % 256,
{
    let ghost range = data@.subrange(start as int, end as int);
    let mut sum: u8 = 0;
    for i in start..end
        invariant
            start <= end <= data@.len(),
            range == data@.subrange(start as int, end as int),
            sum == byte_sum(range.take(i - start)) % 256,
    {
        proof {
            byte_sum_step(range, i - start);
        }
        sum = sum.wrapping_add(data[i]);
    }
    assert(range.take(end - start) =~= range);
    sum
}

proof fn find_cpu_bounds(cpus: Seq<CpuEntry>, apic_id: u32)
    ensures
        0 <= find_cpu(cpus, apic_id) <= cpus.len(),
        find_cpu(cpus, apic_id) < cpus.len() ==> cpus[find_cpu(cpus, apic_id)].apic_id == apic_id,
        forall|i: int|
            0 <= i < find_cpu(cpus, apic_id) ==> (#[trigger] cpus[i]).apic_id != apic_id,
    decreases cpus.len(),
{
    if cpus.len() > 0 {
        let rest = cpus.drop_last();
        find_cpu_bounds(rest, apic_id);
        assert forall|i: int| 0 <= i < find_cpu(cpus, apic_id) implies (
        #[trigger] cpus[i]).apic_id != apic_id by {
            if i < rest.len() {
                assert(rest[i] == cpus[i]);
            }
        }
    }
}

proof fn find_cpu_is(cpus: Seq<CpuEntry>, apic_id: u32, at: int)
    requires
        0 <= at <= cpus.len(),
        at < cpus.len() ==> cpus[at].apic_id == apic_id,
        forall|i: int| 0 <= i < at ==> (#[trigger] cpus[i]).apic_id != apic_id,
    ensures
        find_cpu(cpus, apic_id) == at,
{
    find_cpu_bounds(cpus, apic_id);
    let found = find_cpu(cpus, apic_id);
    if found < at {
        assert(cpus[found].apic_id != apic_id);
    }
    if at < found {
        assert(cpus[at].apic_id != apic_id);
    }
}

/// Recording a processor keeps the identifiers distinct.
proof fn with_cpu_keeps_ids_distinct(d: Description, cpu: CpuEntry)
    requires
        distinct_ids(d.cpus),
    ensures
        distinct_ids(with_cpu(d, cpu).cpus),
        d.cpus.len() <= MAX_CPUS ==> with_cpu(d, cpu).cpus.len() <= MAX_CPUS,
{
    find_cpu_bounds(d.cpus, cpu.apic_id);
}

impl Platform {
    /// Every recorded processor lies in the table.
    pub open spec fn wf(self) -> bool {
        self.cpu_count <= MAX_CPUS
    }

    fn new() -> (platform: Platform)
        ensures
            platform.wf(),
            platform@ == nothing(),
    {
        let blank = CpuEntry { apic_id: 0, acpi_uid: 0, enabled: false, x2apic: false };
        let platform = Platform {
            cpus: [blank; MAX_CPUS],
            cpu_count: 0,
            cpus_dropped: 0,
            duplicates: 0,
            lapic_phys: 0,
            ecam_base: 0,
            ecam_bus_start: 0,
            ecam_bus_end: 0,
            dmar_present: false,
            dmar_units: 0,
            dmar_include_all: false,
            rejected: 0,
        };
        assert(platform@ =~= nothing());
        platform
    }

    /// Enabled processors the firmware described.
    pub fn enabled(&self) -> (count: usize)
        requires
            self.wf(),
        ensures
            count == enabled_count(self@.cpus),
    {
        let mut count: usize = 0;
        for i in 0..self.cpu_count
            invariant
                self.wf(),
                count <= i,
                count == enabled_count(self@.cpus.take(i as int)),
        {
            assert(self@.cpus.take(i + 1).drop_last() =~= self@.cpus.take(i as int));
            if self.cpus[i].enabled {
                count += 1;
            }
        }
        assert(self@.cpus.take(self.cpu_count as int) =~= self@.cpus);
        count
    }
}

fn add_cpu(platform: &mut Platform, cpu: CpuEntry)
    requires
        old(platform).wf(),
        old(platform).duplicates < usize::MAX,
        old(platform).cpus_dropped < usize::MAX,
    ensures
        final(platform).wf(),
        final(platform)@ == with_cpu(old(platform)@, cpu),
{
    let ghost before = platform@;
    let mut at: usize = 0;
    while at < platform.cpu_count && platform.cpus[at].apic_id != cpu.apic_id
        invariant
            platform.wf(),
            *platform == *old(platform),
            before == platform@,
            at <= platform.cpu_count,
            forall|i: int| 0 <= i < at ==> (#[trigger] before.cpus[i]).apic_id != cpu.apic_id,
        decreases platform.cpu_count - at,
    {
        assert(before.cpus[at as int] == platform.cpus@[at as int]);
        at += 1;
    }
    proof {
        if at < platform.cpu_count {
            assert(before.cpus[at as int] == platform.cpus@[at as int]);
        }
        find_cpu_is(before.cpus, cpu.apic_id, at as int);
    }
    if at < platform.cpu_count {
        if cpu.enabled && platform.cpus[at].enabled {
            platform.duplicates += 1;
        }
        let known = platform.cpus[at];
        platform.cpus[at] = CpuEntry {
            apic_id: known.apic_id,
            acpi_uid: known.acpi_uid,
            enabled: known.enabled || cpu.enabled,
            x2apic: known.x2apic || cpu.x2apic,
        };
    } else if platform.cpu_count >= MAX_CPUS {
        platform.cpus_dropped += 1;
    } else {
        platform.cpus[platform.cpu_count] = cpu;
        platform.cpu_count += 1;
    }
    assert(platform@ =~= with_cpu(before, cpu));
}

/// Most structures of one kind that a table of the largest size can hold.
pub const MAX_STRUCTURES: usize = 0x8000;

/// Reads the processor table: processors and the register base.
fn madt(platform: &mut Platform, body: &[u8])
    requires
        old(platform).wf(),
        body@.len() <= MAX_TABLE_LEN,
        old(platform).duplicates + MAX_STRUCTURES < usize::MAX,
        old(platform).cpus_dropped + MAX_STRUCTURES < usize::MAX,
        old(platform).rejected < usize::MAX,
    ensures
        final(platform).wf(),
        final(platform)@ == with_madt(old(platform)@, body@),
        final(platform).duplicates <= old(platform).duplicates + MAX_STRUCTURES,
        final(platform).cpus_dropped <= old(platform).cpus_dropped + MAX_STRUCTURES,
        final(platform).rejected <= old(platform).rejected + 1,
        final(platform).dmar_units == old(platform).dmar_units,
{
    let length: usize = body.len();
    if length < MADT_HEADER_LEN {
        platform.rejected += 1;
        assert(platform@ =~= with_madt(old(platform)@, body@));
        return;
    }
    if let Some(base) = read_u32(body, 36) {
        platform.lapic_phys = base as u64;
    }
    let ghost start = Description { lapic_phys: le(body@, 36, 4), ..old(platform)@ };
    assert(platform@ =~= start);
    let ghost goal = with_madt(old(platform)@, body@);
    let mut offset: usize = MADT_HEADER_LEN;
    while offset + 2 <= length
        invariant
            platform.wf(),
            length == body@.len(),
            length <= MAX_TABLE_LEN,
            MADT_HEADER_LEN <= offset <= length,
            goal == with_madt(old(platform)@, body@),
            madt_walk(platform@, body@, offset as int) == goal,
            8 * (platform.duplicates - old(platform).duplicates) <= offset,
            8 * (platform.cpus_dropped - old(platform).cpus_dropped) <= offset,
            platform.rejected == old(platform).rejected,
            platform.dmar_units == old(platform).dmar_units,
            old(platform).duplicates + MAX_STRUCTURES < usize::MAX,
            old(platform).cpus_dropped + MAX_STRUCTURES < usize::MAX,
            old(platform).rejected < usize::MAX,
        decreases length - offset,
    {
        let kind: u8 = body[offset];
        let step: usize = body[offset + 1] as usize;
        if step < 2 || step > length - offset {
            platform.rejected += 1;
            assert(platform@ =~= goal);
            return;
        }
        let ghost before = platform@;
        if kind == 0 && step >= 8 {
            if let Some(flags) = read_u32(body, offset + 4) {
                let cpu = CpuEntry {
                    apic_id: body[offset + 3] as u32,
                    acpi_uid: body[offset + 2] as u32,
                    enabled: flags % 2 == 1,
                    x2apic: false,
                };
                proof {
                    find_cpu_bounds(before.cpus, cpu.apic_id);
                }
                add_cpu(platform, cpu);
            }
        } else if kind == 9 && step >= 16 {
            if let (Some(apic_id), Some(flags), Some(acpi_uid)) = (
                read_u32(body, offset + 4),
                read_u32(body, offset + 8),
                read_u32(body, offset + 12),
            ) {
                let cpu = CpuEntry { apic_id, acpi_uid, enabled: flags % 2 == 1, x2apic: true };
                proof {
                    find_cpu_bounds(before.cpus, cpu.apic_id);
                }
                add_cpu(platform, cpu);
            }
        } else if kind == 5 && step >= 12 {
            if let Some(base) = read_u64(body, offset + 4) {
                platform.lapic_phys = base;
            }
        }
        assert(platform@ =~= madt_structure(before, body@, offset as int));
        offset += step;
    }
}

/// Reads the configuration space table.
///
/// The base an allocation names belongs to bus zero of its segment even when
/// the allocation starts at a later bus.
fn mcfg(platform: &mut Platform, body: &[u8])
    requires
        old(platform).wf(),
        old(platform).rejected < usize::MAX,
    ensures
        final(platform).wf(),
        final(platform)@ == with_mcfg(old(platform)@, body@),
        final(platform).duplicates == old(platform).duplicates,
        final(platform).cpus_dropped == old(platform).cpus_dropped,
        final(platform).rejected <= old(platform).rejected + 1,
        final(platform).dmar_units == old(platform).dmar_units,
{
    let length: usize = body.len();
    if length < MCFG_HEADER_LEN {
        platform.rejected += 1;
        assert(platform@ =~= with_mcfg(old(platform)@, body@));
        return;
    }
    let ghost goal = with_mcfg(old(platform)@, body@);
    let mut offset: usize = MCFG_HEADER_LEN;
    while length - offset >= MCFG_ENTRY_LEN
        invariant
            platform.wf(),
            length == body@.len(),
            offset <= length,
            goal == mcfg_walk(platform@, body@, offset as int),
            platform.duplicates == old(platform).duplicates,
            platform.cpus_dropped == old(platform).cpus_dropped,
            platform.rejected == old(platform).rejected,
            platform.dmar_units == old(platform).dmar_units,
        decreases length - offset,
    {
        let ghost before = platform@;
        let start: u8 = body[offset + 10];
        let end: u8 = body[offset + 11];
        if let (Some(base), Some(segment)) = (read_u64(body, offset), read_u16(body, offset + 8)) {
            if segment == 0 && platform.ecam_base == 0 && start <= end {
                platform.ecam_base = base;
                platform.ecam_bus_start = start;
                platform.ecam_bus_end = end;
                assert(platform@ =~= (Description {
                    ecam: (le(body@, offset as int, 8), start, end),
                    ..before
                }));
            }
        }
        offset += MCFG_ENTRY_LEN;
    }
}

/// Reads the DMA remapping table: presence and shape only.
fn dmar(platform: &mut Platform, body: &[u8])
    requires
        old(platform).wf(),
        body@.len() <= MAX_TABLE_LEN,
        old(platform).rejected < usize::MAX,
        old(platform).dmar_units + MAX_STRUCTURES < usize::MAX,
    ensures
        final(platform).wf(),
        final(platform)@ == with_dmar(old(platform)@, body@),
        final(platform).duplicates == old(platform).duplicates,
        final(platform).cpus_dropped == old(platform).cpus_dropped,
        final(platform).rejected <= old(platform).rejected + 1,
        final(platform).dmar_units <= old(platform).dmar_units + MAX_STRUCTURES,
{
    let length: usize = body.len();
    if length < DMAR_HEADER_LEN {
        platform.rejected += 1;
        assert(platform@ =~= with_dmar(old(platform)@, body@));
        return;
    }
    let ghost goal = with_dmar(old(platform)@, body@);
    platform.dmar_present = true;
    assert(platform@ =~= (Description { dmar_present: true, ..old(platform)@ }));
    let mut offset: usize = DMAR_HEADER_LEN;
    while length - offset >= 4
        invariant
            platform.wf(),
            length == body@.len(),
            length <= MAX_TABLE_LEN,
            offset <= length,
            goal == with_dmar(old(platform)@, body@),
            goal == dmar_walk(platform@, body@, offset as int),
            16 * (platform.dmar_units - old(platform).dmar_units) <= offset,
            platform.duplicates == old(platform).duplicates,
            platform.cpus_dropped == old(platform).cpus_dropped,
            platform.rejected == old(platform).rejected,
            old(platform).rejected < usize::MAX,
            old(platform).dmar_units + MAX_STRUCTURES < usize::MAX,
        decreases length - offset,
    {
        let ghost before = platform@;
        if let (Some(kind), Some(step)) = (read_u16(body, offset), read_u16(body, offset + 2)) {
            let step: usize = step as usize;
            if step < 4 || step > length - offset {
                platform.rejected += 1;
                assert(platform@ =~= goal);
                return;
            }
            if kind == 0 && step >= 16 {
                platform.dmar_units += 1;
                if body[offset + 4] % 2 == 1 {
                    platform.dmar_include_all = true;
                }
                assert(platform@ =~= (Description {
                    dmar_units: before.dmar_units + 1,
                    dmar_include_all: before.dmar_include_all || body@[offset + 4] % 2 == 1,
                    ..before
                }));
            }
            offset += step;
        } else {
            return;
        }
    }
}

/// Finds the valid table at `phys` of the window `memory`: where it starts and
/// where it ends.
fn table(memory: &[u8], phys: u64) -> (found: Option<(usize, usize)>)
    ensures
        match found {
            Some((start, end)) => {
                &&& start == phys
                &&& start + SDT_HEADER_LEN <= end <= memory@.len()
                &&& end - start <= MAX_TABLE_LEN
                &&& table_at(memory@, phys as int) == Some(
                    memory@.subrange(start as int, end as int),
                )
            },
            None => table_at(memory@, phys as int) is None,
        },
{
    let limit: usize = memory.len();
    if phys == 0 || limit < SDT_HEADER_LEN || phys > (limit - SDT_HEADER_LEN) as u64 {
        return None;
    }
    let start: usize = phys as usize;
    let length: usize = match read_u32(memory, start + 4) {
        Some(length) => length as usize,
        None => return None,
    };
    if length < SDT_HEADER_LEN || length > MAX_TABLE_LEN || length > limit - start {
        return None;
    }
    if checksum(memory, start, start + length) != 0 {
        return None;
    }
    Some((start, start + length))
}

/// Whether the table at `memory[start..]` is signed `a`, `b`, `c`, `e`.
fn signed_as(body: &[u8], a: u8, b: u8, c: u8, e: u8) -> (yes: bool)
    requires
        body@.len() >= SDT_HEADER_LEN,
    ensures
        yes == signed(body@, a, b, c, e),
{
    body[0] == a && body[1] == b && body[2] == c && body[3] == e
}

/// Most tables a root table of the largest size can name.
pub const MAX_CHILDREN: usize = 0x1_0000;

/// Takes what the table at `phys` describes into `platform`.
fn absorb(platform: &mut Platform, memory: &[u8], phys: u64)
    requires
        old(platform).wf(),
        old(platform).duplicates + MAX_STRUCTURES < usize::MAX,
        old(platform).cpus_dropped + MAX_STRUCTURES < usize::MAX,
        old(platform).dmar_units + MAX_STRUCTURES < usize::MAX,
        old(platform).rejected < usize::MAX,
    ensures
        final(platform).wf(),
        final(platform)@ == with_table(old(platform)@, table_at(memory@, phys as int)),
        final(platform).duplicates <= old(platform).duplicates + MAX_STRUCTURES,
        final(platform).cpus_dropped <= old(platform).cpus_dropped + MAX_STRUCTURES,
        final(platform).dmar_units <= old(platform).dmar_units + MAX_STRUCTURES,
        final(platform).rejected <= old(platform).rejected + 1,
{
    match table(memory, phys) {
        None => {
            platform.rejected += 1;
            assert(platform@ =~= with_table(old(platform)@, None));
        },
        Some((start, end)) => {
            let body = slice_subrange(memory, start, end);
            if signed_as(body, 0x41, 0x50, 0x49, 0x43) {
                madt(platform, body);
            } else if signed_as(body, 0x4D, 0x43, 0x46, 0x47) {
                mcfg(platform, body);
            } else if signed_as(body, 0x44, 0x4D, 0x41, 0x52) {
                dmar(platform, body);
            }
        },
    }
}

/// Finds the root table: where it starts, where it ends, whether it is wide.
fn root(memory: &[u8], rsdp_phys: u64) -> (found: Option<(usize, usize, bool)>)
    ensures
        match found {
            Some((start, end, wide)) => {
                &&& start + SDT_HEADER_LEN <= end <= memory@.len()
                &&& end - start <= MAX_TABLE_LEN
                &&& root_table(memory@, rsdp_phys as int) == Some(
                    (memory@.subrange(start as int, end as int), wide),
                )
            },
            None => root_table(memory@, rsdp_phys as int) is None,
        },
{
    let limit: usize = memory.len();
    if rsdp_phys == 0 || limit < RSDP_LEN || rsdp_phys > (limit - RSDP_LEN) as u64 {
        return None;
    }
    let at: usize = rsdp_phys as usize;
    if memory[at] != 0x52 || memory[at + 1] != 0x53 || memory[at + 2] != 0x44 || memory[at + 3]
        != 0x20 || memory[at + 4] != 0x50 || memory[at + 5] != 0x54 || memory[at + 6] != 0x52
        || memory[at + 7] != 0x20 {
        return None;
    }
    if checksum(memory, at, at + RSDP_V1_LEN) != 0 {
        return None;
    }
    let mut address: u64 = 0;
    if memory[at + 15] >= 2 {
        if let (Some(length), Some(wide)) = (read_u32(memory, at + 20), read_u64(memory, at + 24)) {
            let length: usize = length as usize;
            if length >= RSDP_LEN && length <= MAX_RSDP_LEN && length <= limit - at && checksum(
                memory,
                at,
                at + length,
            ) == 0 {
                address = wide;
            }
        }
    }
    assert(address == wide_root(memory@, rsdp_phys as int));
    let wide = address != 0;
    if !wide {
        if let Some(narrow) = read_u32(memory, at + 16) {
            address = narrow as u64;
        }
    }
    let (start, end) = match table(memory, address) {
        Some(found) => found,
        None => return None,
    };
    let body = slice_subrange(memory, start, end);
    if wide {
        if !signed_as(body, 0x58, 0x53, 0x44, 0x54) {
            return None;
        }
    } else {
        if !signed_as(body, 0x52, 0x53, 0x44, 0x54) {
            return None;
        }
    }
    Some((start, end, wide))
}

/// Parses the firmware description reachable from the root pointer at
/// `rsdp_phys`, where `memory` is the window on physical memory from address
/// zero.
///
/// Returns `None` when there is no usable root table, which is a refusal to
/// guess rather than a reason to search memory for a signature.
pub fn parse(memory: &[u8], rsdp_phys: u64) -> (result: Option<Platform>)
    ensures
        match root_table(memory@, rsdp_phys as int) {
            Some((root, wide)) => {
                &&& result matches Some(platform)
                &&& platform.wf()
                &&& platform@ == described(memory@, root, wide, child_count(root, wide))
                &&& distinct_ids(platform@.cpus)
            },
            None => result is None,
        },
{
    let (start, end, wide) = match root(memory, rsdp_phys) {
        Some(found) => found,
        None => return None,
    };
    let body = slice_subrange(memory, start, end);
    let mut platform = Platform::new();
    let stride: usize = if wide {
        8
    } else {
        4
    };
    let entries: usize = (body.len() - SDT_HEADER_LEN) / stride;
    for index in 0..entries
        invariant
            body@ == memory@.subrange(start as int, end as int),
            SDT_HEADER_LEN <= body@.len() <= MAX_TABLE_LEN,
            stride == stride_of(wide),
            entries == child_count(body@, wide),
            entries <= MAX_CHILDREN,
            platform.wf(),
            platform@ == described(memory@, body@, wide, index as int),
            platform.duplicates <= index * 0x8000,
            platform.cpus_dropped <= index * 0x8000,
            platform.dmar_units <= index * 0x8000,
            platform.rejected <= index,
    {
        assert(index * stride + stride <= entries * stride) by (nonlinear_arith)
            requires
                index + 1 <= entries,
                0 < stride,
        ;
        let offset: usize = SDT_HEADER_LEN + index * stride;
        let address: u64 = if wide {
            match read_u64(body, offset) {
                Some(address) => address,
                None => 0,
            }
        } else {
            match read_u32(body, offset) {
                Some(address) => address as u64,
                None => 0,
            }
        };
        assert(address == child_address(body@, wide, index as int));
        absorb(&mut platform, memory, address);
    }
    proof {
        described_ids_are_distinct(memory@, body@, wide, entries as int);
    }
    Some(platform)
}

proof fn madt_walk_keeps_ids_distinct(d: Description, body: Seq<u8>, offset: int)
    requires
        distinct_ids(d.cpus),
    ensures
        distinct_ids(madt_walk(d, body, offset).cpus),
    decreases body.len() - offset,
{
    if offset + 2 <= body.len() && !(body[offset + 1] < 2 || offset + body[offset + 1]
        > body.len()) {
        let narrow = CpuEntry {
            apic_id: body[offset + 3] as u32,
            acpi_uid: body[offset + 2] as u32,
            enabled: le(body, offset + 4, 4) % 2 == 1,
            x2apic: false,
        };
        let wide = CpuEntry {
            apic_id: le(body, offset + 4, 4) as u32,
            acpi_uid: le(body, offset + 12, 4) as u32,
            enabled: le(body, offset + 8, 4) % 2 == 1,
            x2apic: true,
        };
        with_cpu_keeps_ids_distinct(d, narrow);
        with_cpu_keeps_ids_distinct(d, wide);
        madt_walk_keeps_ids_distinct(
            madt_structure(d, body, offset),
            body,
            offset + body[offset + 1],
        );
    }
}

proof fn mcfg_walk_keeps_cpus(d: Description, body: Seq<u8>, offset: int)
    ensures
        mcfg_walk(d, body, offset).cpus == d.cpus,
    decreases body.len() - offset,
{
    if offset + MCFG_ENTRY_LEN <= body.len() {
        let start = body[offset + 10];
        let end = body[offset + 11];
        let next = if le(body, offset + 8, 2) == 0 && d.ecam.0 == 0 && start <= end {
            Description { ecam: (le(body, offset, 8), start, end), ..d }
        } else {
            d
        };
        mcfg_walk_keeps_cpus(next, body, offset + MCFG_ENTRY_LEN);
    }
}

proof fn dmar_walk_keeps_cpus(d: Description, body: Seq<u8>, offset: int)
    ensures
        dmar_walk(d, body, offset).cpus == d.cpus,
    decreases body.len() - offset,
{
    let length = le(body, offset + 2, 2);
    if offset + 4 <= body.len() && !(length < 4 || offset + length > body.len()) {
        let next = if le(body, offset, 2) == 0 && length >= 16 {
            Description {
                dmar_units: d.dmar_units + 1,
                dmar_include_all: d.dmar_include_all || body[offset + 4] % 2 == 1,
                ..d
            }
        } else {
            d
        };
        dmar_walk_keeps_cpus(next, body, offset + length);
    }
}

/// However often the firmware lists a processor, one identifier is recorded at
/// most once.
pub proof fn described_ids_are_distinct(memory: Seq<u8>, root: Seq<u8>, wide: bool, n: int)
    ensures
        distinct_ids(described(memory, root, wide, n).cpus),
    decreases n,
{
    if n > 0 {
        described_ids_are_distinct(memory, root, wide, n - 1);
        let d = described(memory, root, wide, n - 1);
        match table_at(memory, child_address(root, wide, n - 1) as int) {
            None => {},
            Some(body) => {
                madt_walk_keeps_ids_distinct(
                    Description { lapic_phys: le(body, 36, 4), ..d },
                    body,
                    MADT_HEADER_LEN as int,
                );
                mcfg_walk_keeps_cpus(d, body, MCFG_HEADER_LEN as int);
                dmar_walk_keeps_cpus(
                    Description { dmar_present: true, ..d },
                    body,
                    DMAR_HEADER_LEN as int,
                );
            },
        }
    }
}

} // verus!
