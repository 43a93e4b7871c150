//! Devices: what is assigned, what it may reach, and under which session.

use vstd::array::spec_array_fill_for_copy_type;
use vstd::prelude::*;

use crate::api::evtops::raise_bits;
use crate::arch::x86_64::paging::{
    is_root, large_bits, leaf_bits, translations_kept, walk, AddressSpace, MapError, LARGE,
    SLOT_DYNAMIC,
};
use crate::bytes::{array_of, array_of_elements};
use crate::ctrl::one_more;
use crate::ipc::{label_bytes, label_length};
use crate::kstack::{is_off_stacks, stack_page, stack_pages_are_dynamic};
use crate::layout::{ECAM_BUSES, ECAM_VADDR, KSTACK_PAGES, MMIO_AREA, MMIO_PAGES};
use crate::limits::{
    MAX_DEVICES, MAX_DEVICE_MAPS, MAX_DEVICE_REGIONS, MAX_DMA_GRANTS, MAX_IRQ_BINDINGS, MAX_SCOPES,
    MAX_THREADS,
};
use crate::mm::Frame;
use crate::page_table::{
    prefix_continues, same_page, slot_of, upper_page_number, upper_pages_are_apart,
};
use crate::scope::Resource;
use crate::spaces::{is_dynamic, kernel_registers};
use crate::state::{Machine, MachineModel};

verus! {

/// Lifecycle of an assigned device.
#[derive(Clone, Copy, PartialEq, Eq, Debug, Structural)]
pub enum State {
    /// Free table slot.
    Empty,
    /// Assigned and quiescent.
    Ready,
    /// May issue transactions.
    Running,
    /// Being stopped; not yet confirmed.
    Stopping,
}

impl State {
    /// The number [`State::abi`] returns.
    pub open spec fn abi_spec(self) -> u32 {
        match self {
            State::Empty => 0,
            State::Ready => 1,
            State::Running => 2,
            State::Stopping => 3,
        }
    }

    /// The name [`State::name`] returns.
    pub open spec fn name_spec(self) -> Seq<char> {
        match self {
            State::Empty => "empty"@,
            State::Ready => "ready"@,
            State::Running => "running"@,
            State::Stopping => "stopping"@,
        }
    }

    /// Number reported in a device descriptor.
    pub fn abi(self) -> (number: u32)
        ensures
            number == self.abi_spec(),
    {
        match self {
            State::Empty => 0,
            State::Ready => 1,
            State::Running => 2,
            State::Stopping => 3,
        }
    }

    /// Short name used in diagnostic records.
    pub fn name(self) -> (text: &'static str)
        ensures
            text@ == self.name_spec(),
    {
        match self {
            State::Empty => "empty",
            State::Ready => "ready",
            State::Running => "running",
            State::Stopping => "stopping",
        }
    }
}

/// One register window a driver may be given.
#[derive(Clone, Copy, Debug, PartialEq, Eq, Structural)]
pub struct Region {
    /// Structure kind.
    pub kind: u32,
    /// Base address register it lives in.
    pub bar: u8,
    /// Page-aligned physical base.
    pub phys: u64,
    /// Byte offset inside that register's window.
    pub offset: u64,
    /// Page-aligned length.
    pub length: u64,
    /// Notify offset multiplier, meaningful for the notify structure only.
    pub notify_off_multiplier: u32,
    /// Mappings of this region currently installed.
    pub maps: u32,
}

impl Region {
    /// No window.
    pub open spec fn empty_spec() -> Region {
        Region {
            kind: 0,
            bar: 0,
            phys: 0,
            offset: 0,
            length: 0,
            notify_off_multiplier: 0,
            maps: 0,
        }
    }

    /// No window.
    pub fn empty() -> (region: Region)
        ensures
            region == Region::empty_spec(),
    {
        Region {
            kind: 0,
            bar: 0,
            phys: 0,
            offset: 0,
            length: 0,
            notify_off_multiplier: 0,
            maps: 0,
        }
    }
}

/// Where a function keeps its interrupt table.
#[derive(Clone, Copy, Debug, PartialEq, Eq, Structural)]
pub struct Msix {
    /// Offset of the capability in configuration space.
    pub offset: u16,
    /// Vectors the table holds.
    pub vectors: u16,
    /// Base address register of the table.
    pub table_bar: u8,
    /// Offset of the table in that register's window.
    pub table_offset: u64,
    /// Base address register of the pending bits.
    pub pba_bar: u8,
    /// Offset of the pending bits in that register's window.
    pub pba_offset: u64,
}

/// A device function the kernel has validated and assigned.
#[derive(Clone, Copy, Debug)]
pub struct Device {
    /// Whether the slot is in use.
    pub used: bool,
    /// Generation of this table slot.
    pub generation: u32,
    /// Diagnostic identity.
    pub id: u64,
    /// Lifecycle.
    pub state: State,
    /// Advances on every reset. An operation naming an older session is
    /// refused.
    pub session: u32,
    /// Scope charged for the object.
    pub sponsor: u16,
    /// Diagnostic label.
    pub label: [u8; 16],
    /// Segment, bus, device and function.
    pub bdf: u32,
    /// Vendor identifier.
    pub vendor: u16,
    /// Device identifier.
    pub device_id: u16,
    /// Class, subclass and programming interface.
    pub class: u32,
    /// Authorised register windows.
    pub regions: [Region; MAX_DEVICE_REGIONS],
    /// Windows recorded.
    pub region_count: usize,
    /// Interrupt table of the function.
    pub msix: Option<Msix>,
    /// Kernel-only mapping of the interrupt table.
    pub msix_table: u64,
    /// Kernel-only mapping of the common configuration structure.
    pub common_config: u64,
    /// Whether bus mastering is enabled.
    pub bus_master: bool,
    /// Whether the device offers platform-mediated access for its own DMA.
    pub access_platform: bool,
    /// Whether the device offers the modern transport at all.
    pub version_1: bool,
    /// Address width the kernel will hand the device.
    pub dma_address_bits: u32,
    /// Isolation group.
    pub isolation_group: u32,
    /// Functions in that group.
    pub group_members: u32,
    /// Capability entries naming this device.
    pub refs: u32,
}

impl Device {
    /// A free slot.
    pub open spec fn empty_spec() -> Device {
        Device {
            used: false,
            generation: 0,
            id: 0,
            state: State::Empty,
            session: 0,
            sponsor: 0,
            label: spec_array_fill_for_copy_type::<u8, 16>(0),
            bdf: 0,
            vendor: 0,
            device_id: 0,
            class: 0,
            regions: spec_array_fill_for_copy_type::<Region, MAX_DEVICE_REGIONS>(
                Region::empty_spec(),
            ),
            region_count: 0,
            msix: None,
            msix_table: 0,
            common_config: 0,
            bus_master: false,
            access_platform: false,
            version_1: false,
            dma_address_bits: 64,
            isolation_group: 0,
            group_members: 1,
            refs: 0,
        }
    }

    /// A free slot.
    pub fn empty() -> (device: Device)
        ensures
            device == Device::empty_spec(),
    {
        let blank = Region::empty();
        Device {
            used: false,
            generation: 0,
            id: 0,
            state: State::Empty,
            session: 0,
            sponsor: 0,
            label: [0u8; 16],
            bdf: 0,
            vendor: 0,
            device_id: 0,
            class: 0,
            regions: [blank; MAX_DEVICE_REGIONS],
            region_count: 0,
            msix: None,
            msix_table: 0,
            common_config: 0,
            bus_master: false,
            access_platform: false,
            version_1: false,
            dma_address_bits: 64,
            isolation_group: 0,
            group_members: 1,
            refs: 0,
        }
    }

    /// Label up to its first NUL, for diagnostic records.
    pub fn label_str(&self) -> (text: Vec<u8>)
        ensures
            text@ == self.label@.take(label_length(self.label@)),
    {
        label_bytes(&self.label)
    }
}

/// A mapping of a device register window in some domain.
#[derive(Clone, Copy, Debug, PartialEq, Eq, Structural)]
pub struct MapRecord {
    /// Whether the record is in use.
    pub used: bool,
    /// Device table index.
    pub device: u16,
    /// Generation the device had when the mapping was installed.
    pub device_generation: u32,
    /// Session the device was in.
    pub session: u32,
    /// Region index.
    pub region: u8,
    /// Domain the mapping lives in.
    pub domain: u16,
    /// Generation that domain had.
    pub domain_generation: u32,
    /// First virtual address.
    pub vaddr: u64,
    /// Pages mapped.
    pub pages: u32,
    /// Scope charged for the mapping's metadata.
    pub scope: u16,
}

impl MapRecord {
    /// A free record.
    pub open spec fn empty_spec() -> MapRecord {
        MapRecord {
            used: false,
            device: 0,
            device_generation: 0,
            session: 0,
            region: 0,
            domain: 0,
            domain_generation: 0,
            vaddr: 0,
            pages: 0,
            scope: 0,
        }
    }

    /// A free record.
    pub fn empty() -> (record: MapRecord)
        ensures
            record == MapRecord::empty_spec(),
    {
        MapRecord {
            used: false,
            device: 0,
            device_generation: 0,
            session: 0,
            region: 0,
            domain: 0,
            domain_generation: 0,
            vaddr: 0,
            pages: 0,
            scope: 0,
        }
    }
}

/// Pages a device is allowed to reach, under one session.
#[derive(Clone, Copy, Debug, PartialEq, Eq, Structural)]
pub struct DmaGrant {
    /// Whether the record is in use.
    pub used: bool,
    /// Device table index.
    pub device: u16,
    /// Session the grant belongs to. A reset makes it stale by construction.
    pub session: u32,
    /// Memory object index.
    pub memory: u16,
    /// Generation that object had.
    pub memory_generation: u32,
    /// First page of the object.
    pub offset_pages: u32,
    /// Pages granted.
    pub pages: u32,
    /// Rights the device has, from the device's point of view.
    pub rights: u32,
    /// Address the device uses.
    pub iova: u64,
    /// Profile the grant was made under.
    pub profile: u32,
    /// Scope charged for the grant.
    pub scope: u16,
}

impl DmaGrant {
    /// A free record.
    pub open spec fn empty_spec() -> DmaGrant {
        DmaGrant {
            used: false,
            device: 0,
            session: 0,
            memory: 0,
            memory_generation: 0,
            offset_pages: 0,
            pages: 0,
            rights: 0,
            iova: 0,
            profile: 0,
            scope: 0,
        }
    }

    /// A free record.
    pub fn empty() -> (grant: DmaGrant)
        ensures
            grant == DmaGrant::empty_spec(),
    {
        DmaGrant {
            used: false,
            device: 0,
            session: 0,
            memory: 0,
            memory_generation: 0,
            offset_pages: 0,
            pages: 0,
            rights: 0,
            iova: 0,
            profile: 0,
            scope: 0,
        }
    }
}

/// One device interrupt routed to a signal.
#[derive(Clone, Copy, Debug, PartialEq, Eq, Structural)]
pub struct IrqBinding {
    /// Whether the record is in use.
    pub used: bool,
    /// Device table index.
    pub device: u16,
    /// Generation the device had.
    pub device_generation: u32,
    /// Session the binding belongs to.
    pub session: u32,
    /// Interrupt table entry programmed.
    pub entry: u16,
    /// Interrupt vector the entry writes.
    pub vector: u8,
    /// Signal raised.
    pub signal: u16,
    /// Generation that signal had.
    pub signal_generation: u32,
    /// Bits raised.
    pub bits: u64,
    /// Interrupts delivered through this binding.
    pub deliveries: u64,
}

impl IrqBinding {
    /// A free record.
    pub open spec fn empty_spec() -> IrqBinding {
        IrqBinding {
            used: false,
            device: 0,
            device_generation: 0,
            session: 0,
            entry: 0,
            vector: 0,
            signal: 0,
            signal_generation: 0,
            bits: 0,
            deliveries: 0,
        }
    }

    /// A free record.
    pub fn empty() -> (binding: IrqBinding)
        ensures
            binding == IrqBinding::empty_spec(),
    {
        IrqBinding {
            used: false,
            device: 0,
            device_generation: 0,
            session: 0,
            entry: 0,
            vector: 0,
            signal: 0,
            signal_generation: 0,
            bits: 0,
            deliveries: 0,
        }
    }
}

/// First interrupt vector that devices use.
pub const DEVICE_VECTOR_BASE: u8 = 0x50;

/// Interrupt vectors that devices use.
pub const DEVICE_VECTOR_COUNT: u8 = 8;

/// One of the vectors that devices use.
pub open spec fn is_device_vector(vector: u8) -> bool {
    DEVICE_VECTOR_BASE <= vector < DEVICE_VECTOR_BASE + DEVICE_VECTOR_COUNT
}

/// A register window lies in the physical address space, and its pages can be
/// counted.
pub open spec fn region_ok(r: Region) -> bool {
    &&& r.phys + r.length <= 0x10_0000_0000_0000
    &&& r.length <= 0xFFF_FFFF_F000
}

/// Isolation that the hardware enforces.
pub const STRONG_IOMMU: u32 = 1;

/// Isolation that rests on trusting the driver.
pub const WEAK_TRUSTED_DRIVER: u32 = 2;

impl Device {
    /// The profile [`Device::profile`] returns, and why.
    pub open spec fn profile_spec(
        self,
        iommu_described: bool,
        iommu_translating: bool,
    ) -> (u32, Seq<char>) {
        if !iommu_described {
            (WEAK_TRUSTED_DRIVER, "no_remapping_unit_described"@)
        } else if !iommu_translating {
            (WEAK_TRUSTED_DRIVER, "remapping_described_but_not_programmed"@)
        } else if self.group_members > 1 {
            (WEAK_TRUSTED_DRIVER, "group_has_several_functions"@)
        } else if !self.access_platform {
            (WEAK_TRUSTED_DRIVER, "device_does_not_offer_access_platform"@)
        } else {
            (STRONG_IOMMU, "conditions_met"@)
        }
    }

    /// Which isolation profile this device can actually sustain, and why.
    ///
    /// Every condition has to hold for the strong profile; the first that does
    /// not is what the reason names. Nothing here downgrades silently.
    pub fn profile(&self, iommu_described: bool, iommu_translating: bool) -> (answer: (
        u32,
        &'static str,
    ))
        ensures
            answer.0 == self.profile_spec(iommu_described, iommu_translating).0,
            answer.1@ == self.profile_spec(iommu_described, iommu_translating).1,
    {
        if !iommu_described {
            return (WEAK_TRUSTED_DRIVER, "no_remapping_unit_described");
        }
        if !iommu_translating {
            return (WEAK_TRUSTED_DRIVER, "remapping_described_but_not_programmed");
        }
        if self.group_members > 1 {
            return (WEAK_TRUSTED_DRIVER, "group_has_several_functions");
        }
        if !self.access_platform {
            return (WEAK_TRUSTED_DRIVER, "device_does_not_offer_access_platform");
        }
        (STRONG_IOMMU, "conditions_met")
    }
}

/// A base address register of a function.
#[derive(Clone, Copy, Debug, PartialEq, Eq, Structural)]
pub struct Bar {
    /// Whether it decodes memory.
    pub memory: bool,
    /// Physical base of its window.
    pub base: u64,
    /// Length of its window.
    pub length: u64,
}

/// A virtio structure that a function advertises.
#[derive(Clone, Copy, Debug, PartialEq, Eq, Structural)]
pub struct VirtioCap {
    /// Base address register it lives in.
    pub bar: u8,
    /// Offset in that register's window.
    pub offset: u64,
    /// Length.
    pub length: u64,
    /// Notify offset multiplier, meaningful for the notify structure only.
    pub notify_off_multiplier: u32,
}

/// A function found on the bus.
#[derive(Clone, Copy, Debug)]
pub struct Function {
    /// Segment, bus, device and function.
    pub bdf: u32,
    /// Vendor identifier.
    pub vendor: u16,
    /// Device identifier.
    pub device: u16,
    /// Class, subclass and programming interface.
    pub class: u32,
    /// Base address registers.
    pub bars: [Bar; 6],
    /// Virtio structures, by kind.
    pub virtio: [Option<VirtioCap>; 6],
    /// Interrupt table.
    pub msix: Option<Msix>,
}

impl Function {
    /// Device number on its bus.
    pub fn slot(&self) -> (number: u32)
        ensures
            number == (self.bdf / 8) % 32,
    {
        (self.bdf / 8) % 32
    }

    /// Its windows lie in the physical address space.
    pub open spec fn wf(self) -> bool {
        forall|b: int|
            0 <= b < 6 ==> (#[trigger] self.bars@[b]).base + self.bars@[b].length
                <= 0x10_0000_0000_0000 && self.bars@[b].length <= 0xFFF_FFFF_F000
    }
}

/// Whether a candidate function is the device this revision assigns: modern
/// virtio block. A legacy identifier is not treated as modern because it happens
/// to work under an emulator.
pub fn is_virtio_block(function: &Function) -> (yes: bool)
    ensures
        yes == (function.vendor == 0x1AF4 && function.device == 0x1042),
{
    function.vendor == 0x1AF4 && function.device == 0x1042
}

impl Msix {
    /// Bytes of the interrupt table.
    pub fn table_len(&self) -> (bytes: u64)
        ensures
            bytes == self.vectors * 16,
    {
        self.vectors as u64 * 16
    }
}

/// The pages that `length` bytes at `start` touch and those that `len` bytes at
/// `at` touch meet.
pub open spec fn pages_meet(at: int, len: int, start: int, length: int) -> bool {
    start < (at + len + 0xFFF) / 0x1000 * 0x1000 && at / 0x1000 * 0x1000 < start + length
}

/// A range in a base address register touches a page that the interrupt table or
/// its pending bits occupy.
pub open spec fn meets_interrupt_table(msix: Msix, bar: u8, offset: u64, length: u64) -> bool {
    ||| msix.table_bar == bar && pages_meet(
        msix.table_offset as int,
        msix.vectors * 16,
        offset as int,
        length as int,
    )
    ||| msix.pba_bar == bar && pages_meet(
        msix.pba_offset as int,
        (msix.vectors + 7) / 8,
        offset as int,
        length as int,
    )
}

fn touches(at: u64, len: u64, start: u64, length: u64) -> (yes: bool)
    requires
        at <= 0xFFFF_FFFF_FFFF,
        len <= 0xFFFF_FFFF,
        start + length <= u64::MAX,
    ensures
        yes == pages_meet(at as int, len as int, start as int, length as int),
{
    let low: u64 = at / 0x1000 * 0x1000;
    let high: u64 = (at + len + 0xFFF) / 0x1000 * 0x1000;
    start < high && low < start + length
}

/// Whether `[offset, offset + length)` in `bar` touches a page the interrupt
/// table or its pending-bit array occupies.
fn overlaps_interrupt_table(msix: &Msix, bar: u8, offset: u64, length: u64) -> (hit: bool)
    requires
        msix.table_offset <= 0xFFFF_FFFF,
        msix.pba_offset <= 0xFFFF_FFFF,
        offset + length <= u64::MAX,
    ensures
        hit == meets_interrupt_table(*msix, bar, offset, length),
{
    let table = msix.table_bar == bar && touches(
        msix.table_offset,
        msix.table_len(),
        offset,
        length,
    );
    let pending = msix.pba_bar == bar && touches(
        msix.pba_offset,
        (msix.vectors as u64 + 7) / 8,
        offset,
        length,
    );
    table || pending
}

/// Why a virtio structure of a function makes it unassignable, or nothing.
pub open spec fn structure_fault(function: Function, kind: int) -> Option<Seq<char>> {
    match function.virtio@[kind] {
        None => Some("missing_virtio_structure"@),
        Some(cap) => {
            let bar = function.bars@[cap.bar as int];
            if cap.bar >= 6 {
                Some("structure_names_no_such_bar"@)
            } else if !bar.memory || bar.length == 0 {
                Some("structure_bar_is_not_memory"@)
            } else if cap.offset + cap.length > u64::MAX {
                Some("structure_range_overflows"@)
            } else if cap.length == 0 || cap.offset + cap.length > bar.length {
                Some("structure_outside_its_bar"@)
            } else if cap.offset % 0x1000 != 0 || cap.length % 0x1000 != 0 {
                Some("structure_not_page_granular"@)
            } else if function.msix matches Some(msix) && meets_interrupt_table(
                msix,
                cap.bar,
                cap.offset,
                cap.length,
            ) {
                Some("structure_shares_pages_with_interrupt_table"@)
            } else {
                None
            }
        },
    }
}

/// Why a function is unassignable, from structure `kind` on; nothing when it is
/// not. It has four structures.
pub open spec fn function_fault(function: Function, kind: int) -> Option<Seq<char>>
    decreases 5 - kind,
{
    if kind > 4 {
        None
    } else if structure_fault(function, kind) is Some {
        structure_fault(function, kind)
    } else {
        function_fault(function, kind + 1)
    }
}

/// The window of structure `kind`.
pub open spec fn region_of(function: Function, kind: int) -> Region {
    let cap = function.virtio@[kind]->0;
    Region {
        kind: kind as u32,
        bar: cap.bar,
        phys: (function.bars@[cap.bar as int].base + cap.offset) as u64,
        offset: cap.offset,
        length: cap.length,
        notify_off_multiplier: cap.notify_off_multiplier,
        maps: 0,
    }
}

/// The windows of a sound function: one for each of its four structures.
pub open spec fn windows_of(function: Function) -> Seq<Region> {
    Seq::new(
        MAX_DEVICE_REGIONS as nat,
        |k: int|
            if k < 4 {
                region_of(function, k + 1)
            } else {
                Region::empty_spec()
            },
    )
}

/// The window of a sound structure.
pub open spec fn is_window(function: Function, kind: int, region: Region) -> bool {
    region == region_of(function, kind) && structure_fault(function, kind) is None
}

/// Result of validating a function's advertised structures.
#[derive(Clone, Copy, Debug)]
pub struct Validated {
    /// Windows the driver may be given.
    pub regions: [Region; MAX_DEVICE_REGIONS],
    /// Windows recorded.
    pub count: usize,
    /// Why the function was refused, if it was.
    pub refusal: Option<&'static str>,
}

/// What is wrong with one structure.
fn check_structure(function: &Function, kind: usize) -> (fault: Option<&'static str>)
    requires
        function.wf(),
        kind < 6,
        function.msix matches Some(m) ==> m.table_offset <= 0xFFFF_FFFF && m.pba_offset
            <= 0xFFFF_FFFF,
    ensures
        match structure_fault(*function, kind as int) {
            Some(text) => fault matches Some(t) && t@ == text,
            None => fault is None,
        },
{
    let cap = match function.virtio[kind] {
        None => {
            return Some("missing_virtio_structure");
        },
        Some(cap) => cap,
    };
    if cap.bar >= 6 {
        return Some("structure_names_no_such_bar");
    }
    let bar = function.bars[cap.bar as usize];
    if !bar.memory || bar.length == 0 {
        return Some("structure_bar_is_not_memory");
    }
    if cap.offset > u64::MAX - cap.length {
        return Some("structure_range_overflows");
    }
    if cap.length == 0 || cap.offset + cap.length > bar.length {
        return Some("structure_outside_its_bar");
    }
    if cap.offset % 0x1000 != 0 || cap.length % 0x1000 != 0 {
        return Some("structure_not_page_granular");
    }
    match function.msix {
        Some(msix) => {
            // Page protection cannot separate two structures that share a page,
            // and this one carries the address and payload of an interrupt.
            if overlaps_interrupt_table(&msix, cap.bar, cap.offset, cap.length) {
                return Some("structure_shares_pages_with_interrupt_table");
            }
        },
        None => {},
    }
    None
}

/// Validates every virtio structure a function advertises against the register
/// it claims to live in, and against the interrupt table of the same register.
///
/// A structure that fails makes the whole function unassignable: handing out
/// three of four windows would be worse than refusing.
pub fn validate(function: &Function) -> (out: Validated)
    requires
        function.wf(),
        function.msix matches Some(m) ==> m.table_offset <= 0xFFFF_FFFF && m.pba_offset
            <= 0xFFFF_FFFF,
    ensures
        match function_fault(*function, 1) {
            Some(text) => out.refusal matches Some(t) && t@ == text,
            None => out.refusal is None && out.count == 4,
        },
        out.count <= 4,
        forall|i: int|
            0 <= i < out.count ==> is_window(*function, i + 1, #[trigger] out.regions@[i]),
        forall|i: int|
            0 <= i < MAX_DEVICE_REGIONS ==> region_ok(#[trigger] out.regions@[i]),
        forall|i: int|
            out.count <= i < MAX_DEVICE_REGIONS ==> #[trigger] out.regions@[i]
                == Region::empty_spec(),
{
    let mut regions: [Region; MAX_DEVICE_REGIONS] = [Region::empty(); MAX_DEVICE_REGIONS];
    for kind in 1..5usize
        invariant
            function.wf(),
            function.msix matches Some(m) ==> m.table_offset <= 0xFFFF_FFFF && m.pba_offset
                <= 0xFFFF_FFFF,
            function_fault(*function, 1) == function_fault(*function, kind as int),
            1 <= kind <= 5,
            forall|i: int|
                0 <= i < kind - 1 ==> is_window(*function, i + 1, #[trigger] regions@[i]),
            forall|i: int|
                0 <= i < MAX_DEVICE_REGIONS ==> region_ok(#[trigger] regions@[i]),
            forall|i: int|
                kind - 1 <= i < MAX_DEVICE_REGIONS ==> #[trigger] regions@[i]
                    == Region::empty_spec(),
    {
        match check_structure(function, kind) {
            Some(refusal) => {
                return Validated { regions, count: kind - 1, refusal: Some(refusal) };
            },
            None => {},
        }
        match function.virtio[kind] {
            None => {},
            Some(cap) => {
                let bar = function.bars[cap.bar as usize];
                regions[kind - 1] = Region {
                    kind: kind as u32,
                    bar: cap.bar,
                    phys: bar.base + cap.offset,
                    offset: cap.offset,
                    length: cap.length,
                    notify_off_multiplier: cap.notify_off_multiplier,
                    maps: 0,
                };
            },
        }
    }
    Validated { regions, count: 4, refusal: None }
}

/// A window the driver is given shares no page with the interrupt table.
pub proof fn windows_exclude_the_interrupt_table(function: Function, kind: int)
    requires
        structure_fault(function, kind) is None,
        function.msix is Some,
    ensures
        ({
            let window = region_of(function, kind);
            !meets_interrupt_table(
                function.msix->0,
                window.bar,
                window.offset,
                window.length,
            )
        }),
{
}

/// `VIRTIO_F_VERSION_1`, feature bit 32.
pub const FEATURE_VERSION_1: u32 = 1;

/// `VIRTIO_F_ACCESS_PLATFORM`, feature bit 33.
pub const FEATURE_ACCESS_PLATFORM: u32 = 2;

/// The two features the assignment depends on, from feature bits 32 to 63.
pub fn transport_features(high: u32) -> (features: (bool, bool))
    ensures
        features == (high & FEATURE_VERSION_1 != 0, high & FEATURE_ACCESS_PLATFORM != 0),
{
    (high & FEATURE_VERSION_1 != 0, high & FEATURE_ACCESS_PLATFORM != 0)
}

impl MachineModel {
    /// A binding for a vector whose device is still in the session it was made
    /// under.
    pub open spec fn is_due_irq(self, k: int, vector: u8) -> bool {
        let binding = self.irqs[k];
        let device = self.devices[binding.device as int];
        &&& binding.used
        &&& binding.vector == vector
        &&& device.used
        &&& device.generation == binding.device_generation
        &&& device.session == binding.session
    }

    /// The machine once an interrupt has reached one binding.
    pub open spec fn irq_delivered(self, k: int) -> MachineModel {
        let binding = self.irqs[k];
        self.with_irq(
            k,
            IrqBinding {
                deliveries: crate::api::ipcops::one_more64(binding.deliveries),
                ..binding
            },
        ).raised(
            binding.signal as int,
            binding.signal_generation,
            binding.bits,
        ).interrupt_counted(true)
    }

    /// The machine, and whether anything claimed the interrupt, once the first
    /// `n` bindings have been considered.
    pub open spec fn interrupted(self, vector: u8, n: nat) -> (MachineModel, bool)
        decreases n,
    {
        if n == 0 {
            (self, false)
        } else {
            let (before, claimed) = self.interrupted(vector, (n - 1) as nat);
            if before.is_due_irq(n - 1, vector) {
                (before.irq_delivered(n - 1), true)
            } else {
                (before, claimed)
            }
        }
    }
}

/// Delivers one device interrupt.
///
/// A vector whose binding has gone, because the device was reset or the signal
/// was destroyed, raises nothing and is counted: an interrupt that arrives late
/// must not be attributed to the session that replaced its own.
pub fn on_interrupt(machine: &mut Machine, vector: u8)
    requires
        old(machine).wf(),
    ensures
        final(machine).wf(),
        ({
            let (after, claimed) = old(machine)@.interrupted(vector, MAX_IRQ_BINDINGS as nat);
            final(machine)@ == if claimed {
                after
            } else {
                after.interrupt_counted(false)
            }
        }),
{
    let mut claimed = false;
    for k in 0..MAX_IRQ_BINDINGS
        invariant
            machine.wf(),
            (machine@, claimed) == old(machine)@.interrupted(vector, k as nat),
    {
        let binding = machine.irq(k);
        if binding.used && binding.vector == vector {
            let device = machine.device(binding.device as usize);
            if device.used && device.generation == binding.device_generation && device.session
                == binding.session {
                machine.set_irq(
                    k,
                    IrqBinding { deliveries: binding.deliveries.saturating_add(1), ..binding },
                );
                raise_bits(
                    machine,
                    binding.signal as usize,
                    binding.signal_generation,
                    binding.bits,
                );
                machine.count_interrupt(true);
                claimed = true;
            }
        }
    }
    if !claimed {
        machine.count_interrupt(false);
    }
}

/// Interrupts delivered to a binding over the whole run.
pub fn delivered(machine: &Machine) -> (count: u64)
    ensures
        count == machine@.delivered,
{
    machine.delivered
}

/// Interrupts that arrived for no binding.
pub fn unclaimed(machine: &Machine) -> (count: u64)
    ensures
        count == machine@.unclaimed,
{
    machine.unclaimed
}

/// An interrupt for a session that has ended raises nothing.
pub proof fn late_interrupts_raise_nothing(m: MachineModel, vector: u8, n: nat)
    requires
        forall|k: int| 0 <= k < n ==> !(#[trigger] m.is_due_irq(k, vector)),
    ensures
        m.interrupted(vector, n) == (m, false),
    decreases n,
{
    if n > 0 {
        late_interrupts_raise_nothing(m, vector, (n - 1) as nat);
    }
}

/// The kernel's own window for device registers, handed out from the bottom.
pub struct Windows {
    /// Next free page.
    pub next: u64,
}

impl Windows {
    /// Takes pages of the window; `None` when they do not fit.
    pub fn take(&mut self, pages: u64) -> (first: Option<u64>)
        ensures
            if old(self).next + pages <= MMIO_PAGES {
                first == Some(old(self).next) && final(self).next == old(self).next + pages
            } else {
                first is None && final(self).next == old(self).next
            },
    {
        if self.next > MMIO_PAGES || pages > MMIO_PAGES - self.next {
            return None;
        }
        let first: u64 = self.next;
        self.next = first + pages;
        Some(first)
    }
}

/// Address of a page of the kernel's own window.
pub open spec fn window_page(page: int) -> u64 {
    (MMIO_AREA + page * 0x1000) as u64
}

proof fn window_pages_are_dynamic(page: int)
    requires
        0 <= page < MMIO_PAGES,
    ensures
        is_dynamic(window_page(page)),
        is_off_stacks(window_page(page), -1),
        window_page(page) == MMIO_AREA + page * 0x1000,
{
    let v = MMIO_AREA + page * 0x1000;
    assert(MMIO_AREA == 0xFFFF_8080_0200_0000);
    assert(0xFFFF_8080_0200_0000 <= v < 0xFFFF_8080_0300_0000);
    assert(v / 0x80_0000_0000 == 0x1FF_FF01);
    assert(0x1FF_FF01int % 512 == 257);
    assert forall|slot: int, p: int|
        0 <= slot < MAX_THREADS && slot != -1 && -1 <= p < KSTACK_PAGES implies !same_page(
        #[trigger] stack_page(slot, p),
        window_page(page),
        0,
    ) by {
        stack_pages_are_dynamic(slot, p);
        upper_pages_are_apart(stack_page(slot, p), window_page(page));
    }
}

/// `w` lies in one of the `n` pages of the kernel's own window from `first` on.
pub open spec fn in_window(w: u64, first: int, n: int) -> bool {
    exists|p: int| 0 <= p < n && #[trigger] same_page(w, window_page(first + p), 0)
}

/// The frame that page `p` of a window on device memory is mapped to.
pub open spec fn window_frame(phys: u64, p: int) -> Frame {
    Frame { number: ((phys + p * 0x1000) / 0x1000) as u64 }
}

/// The first `n` pages of the kernel's own window from `first` on are mapped to
/// device memory at `phys`, as registers are.
pub open spec fn window_mapped(machine: Machine, first: int, phys: u64, n: int) -> bool {
    forall|p: int, w: u64|
        0 <= p < n && #[trigger] same_page(w, window_page(first + p), 0) ==> machine.kernel_walk(w)
            == Some(
            (0nat, (window_frame(phys, p).address() as u64) | leaf_bits(kernel_registers())),
        )
}

/// Maps frames of device memory in the kernel's own window; returns where.
///
/// The pages of the window stay taken when a mapping fails.
pub fn map_kernel_window(machine: &mut Machine, windows: &mut Windows, phys: u64, pages: u64) -> (
    vaddr: Option<u64>)
    requires
        old(machine).wf(),
        old(machine)@.kernel_space is Some,
        phys + pages * 0x1000 <= 0x10_0000_0000_0000,
    ensures
        final(machine).wf(),
        final(machine)@ == (MachineModel { uses: final(machine)@.uses, ..old(machine)@ }),
        translations_kept(
            old(machine).frames,
            final(machine).frames,
            |w: u64| in_window(w, old(windows).next as int, pages as int),
        ),
        match vaddr {
            Some(v) => {
                &&& old(windows).next + pages <= MMIO_PAGES
                &&& v == window_page(old(windows).next as int)
                &&& final(windows).next == old(windows).next + pages
                &&& window_mapped(*final(machine), old(windows).next as int, phys, pages as int)
            },
            None => {
                ||| {
                    &&& old(windows).next + pages > MMIO_PAGES
                    &&& final(windows).next == old(windows).next
                    &&& *final(machine) == *old(machine)
                }
                ||| {
                    &&& old(windows).next + pages <= MMIO_PAGES
                    &&& final(windows).next == old(windows).next + pages
                    &&& {
                        ||| old(machine).frames.free_frames() < 3 * pages
                        ||| exists|p: int|
                            0 <= p < pages && (#[trigger] old(machine).kernel_walk(
                                window_page(old(windows).next + p),
                            )) is Some
                    }
                }
            },
        },
{
    let first: u64 = match windows.take(pages) {
        None => {
            return None;
        },
        Some(first) => first,
    };
    for page in 0..pages
        invariant
            machine.wf(),
            machine@.kernel_space is Some,
            old(machine).wf(),
            old(machine)@.kernel_space is Some,
            first == old(windows).next,
            first + pages <= MMIO_PAGES,
            windows.next == first + pages,
            phys + pages * 0x1000 <= 0x10_0000_0000_0000,
            machine@ == (MachineModel { uses: machine@.uses, ..old(machine)@ }),
            machine.frames.free_frames() + 3 * page >= old(machine).frames.free_frames(),
            window_mapped(*machine, first as int, phys, page as int),
            translations_kept(
                old(machine).frames,
                machine.frames,
                |w: u64| in_window(w, first as int, page as int),
            ),
    {
        let ghost before = *machine;
        proof {
            window_pages_are_dynamic((first + page) as int);
            old(machine).kernel_is_root(-1);
            before.kernel_is_root(-1);
        }
        let v: u64 = MMIO_AREA + (first + page) * 0x1000;
        let frame = Frame { number: (phys + page * 0x1000) / 0x1000 };
        assert(v == window_page(first + page));
        assert(frame == window_frame(phys, page as int));
        let result = machine.map_kernel_frame(v, frame);
        proof {
            let root = (before.kernel_space->0).number as int;
            assert forall|p: int, w: u64|
                0 <= p < page && #[trigger] same_page(w, window_page(first + p), 0) implies
                !same_page(w, v, 0) by {
                window_pages_are_dynamic(first + p);
                upper_pages_are_apart(window_page(first + p), v);
            }
            assert forall|r: int, w: u64|
                is_root(old(machine).frames, r) && !in_window(
                    w,
                    first as int,
                    page + 1,
                ) implies #[trigger] walk(machine.frames, r, w) == walk(
                old(machine).frames,
                r,
                w,
            ) by {
                assert(is_root(before.frames, r));
                assert(!same_page(w, window_page(first + page), 0));
                if in_window(w, first as int, page as int) {
                    let p = choose|p: int|
                        0 <= p < page && #[trigger] same_page(w, window_page(first + p), 0);
                    assert(0 <= p < page + 1 && same_page(w, window_page(first + p), 0));
                }
                assert(walk(before.frames, r, w) == walk(old(machine).frames, r, w));
            }
            assert forall|r: int, w: u64|
                is_root(old(machine).frames, r) && !in_window(
                    w,
                    first as int,
                    pages as int,
                ) implies #[trigger] walk(machine.frames, r, w) == walk(
                old(machine).frames,
                r,
                w,
            ) by {
                if in_window(w, first as int, page + 1) {
                    let p = choose|p: int|
                        0 <= p < page + 1 && #[trigger] same_page(w, window_page(first + p), 0);
                    assert(0 <= p < pages && same_page(w, window_page(first + p), 0));
                }
            }
            assert forall|r: int| is_root(old(machine).frames, r) implies #[trigger] is_root(
                machine.frames,
                r,
            ) by {
                assert(is_root(before.frames, r));
            }
            assert(!in_window(v, first as int, page as int)) by {
                assert(same_page(v, v, 0));
                if in_window(v, first as int, page as int) {
                    let p = choose|p: int|
                        0 <= p < page && #[trigger] same_page(v, window_page(first + p), 0);
                }
            }
            assert(before.kernel_walk(v) == old(machine).kernel_walk(v)) by {
                assert(walk(before.frames, root, v) == walk(old(machine).frames, root, v));
            }
            if result is Ok {
                assert forall|p: int, w: u64|
                    0 <= p < page + 1 && #[trigger] same_page(w, window_page(first + p), 0) implies
                    machine.kernel_walk(w) == Some(
                    (
                        0nat,
                        (window_frame(phys, p).address() as u64) | leaf_bits(kernel_registers()),
                    ),
                ) by {
                    if p < page {
                        assert(walk(machine.frames, root, w) == walk(before.frames, root, w));
                    }
                }
            }
        }
        match result {
            Err(_) => {
                proof {
                    if before.kernel_walk(v) is Some {
                        assert(old(machine).kernel_walk(window_page(first + page)) is Some);
                    }
                }
                return None;
            },
            Ok(()) => {},
        }
    }
    Some(MMIO_AREA + first * 0x1000)
}

proof fn configuration_window_is_apart()
    ensures
        forall|w: u64| #[trigger] same_page(w, ECAM_VADDR, 1) ==> slot_of(w, 3) == SLOT_DYNAMIC,
        forall|slot: int, page: int|
            0 <= slot < MAX_THREADS && -1 <= page < KSTACK_PAGES ==> !same_page(
                #[trigger] stack_page(slot, page),
                ECAM_VADDR,
                1,
            ),
{
    assert(ECAM_VADDR == 0xFFFF_8080_0100_0000);
    prefix_continues(ECAM_VADDR, 1);
    prefix_continues(ECAM_VADDR, 2);
    prefix_continues(ECAM_VADDR, 3);
    assert(0xFFFF_8080_0100_0000int / 0x80_0000_0000 == 0x1FF_FF01);
    assert(0x1FF_FF01int % 512 == 257);
    assert forall|w: u64| #[trigger] same_page(w, ECAM_VADDR, 1) implies slot_of(w, 3)
        == SLOT_DYNAMIC by {
        prefix_continues(w, 1);
        prefix_continues(w, 2);
        prefix_continues(w, 3);
    }
    assert forall|slot: int, page: int|
        0 <= slot < MAX_THREADS && -1 <= page < KSTACK_PAGES implies !same_page(
        #[trigger] stack_page(slot, page),
        ECAM_VADDR,
        1,
    ) by {
        let w = stack_page(slot, page);
        stack_pages_are_dynamic(slot, page);
        upper_page_number(w);
        upper_page_number(ECAM_VADDR);
        prefix_continues(w, 1);
    }
}

/// Maps the firmware's configuration window, as one large page that is not
/// cached: configuration space is no memory.
pub fn map_configuration(machine: &mut Machine, base: u64) -> (result: Result<(), MapError>)
    requires
        old(machine).wf(),
        old(machine)@.kernel_space is Some,
        base <= 0xFFFF_FFFF_FFE0_0000,
    ensures
        final(machine).wf(),
        final(machine)@ == (MachineModel { uses: final(machine)@.uses, ..old(machine)@ }),
        translations_kept(
            old(machine).frames,
            final(machine).frames,
            |w: u64| result is Ok && same_page(w, ECAM_VADDR, 1),
        ),
        match result {
            Ok(()) => {
                &&& base % LARGE == 0
                &&& forall|w: u64|
                    same_page(w, ECAM_VADDR, 1) ==> #[trigger] final(machine).kernel_walk(w) == Some(
                        (1nat, large_bits(base, kernel_registers())),
                    )
            },
            Err(e) => {
                ||| base % LARGE != 0 && e == MapError::BadAddress
                ||| (AddressSpace { root: old(machine)@.kernel_space->0 }).large_page_refused(
                    final(machine).frames,
                    ECAM_VADDR,
                    e,
                )
            },
        },
{
    proof {
        configuration_window_is_apart();
        assert(ECAM_VADDR == 0xFFFF_8080_0100_0000);
    }
    machine.map_kernel_large(ECAM_VADDR, base)
}

/// Last bus of the configuration window that is walked: as many buses as the
/// kernel's own window covers, and none behind the last one described.
pub fn last_bus(first: u8, described: u8) -> (last: u8)
    ensures
        last == if first + (ECAM_BUSES - 1) < described {
            first + (ECAM_BUSES - 1)
        } else {
            described as int
        },
{
    let reach: u8 = first.saturating_add(ECAM_BUSES - 1);
    if reach < described {
        reach
    } else {
        described
    }
}

/// Functions among the first `n` that share the bus and the device number of a
/// function.
pub open spec fn siblings(functions: Seq<Function>, bdf: u32, n: int) -> nat
    decreases n,
{
    if n <= 0 {
        0
    } else if functions[n - 1].bdf / 8 == bdf / 8 {
        siblings(functions, bdf, n - 1) + 1
    } else {
        siblings(functions, bdf, n - 1)
    }
}

fn count_siblings(functions: &Vec<Function>, bdf: u32) -> (count: u32)
    requires
        functions@.len() <= u32::MAX,
    ensures
        count == siblings(functions@, bdf, functions@.len() as int),
{
    let mut count: u32 = 0;
    for k in 0..functions.len()
        invariant
            functions@.len() <= u32::MAX,
            count <= k,
            count == siblings(functions@, bdf, k as int),
    {
        if functions[k].bdf / 8 == bdf / 8 {
            count += 1;
        }
    }
    count
}

/// The first free device from `from` on, or [`MAX_DEVICES`].
pub open spec fn first_device(devices: Seq<Device>, from: int) -> int
    decreases MAX_DEVICES - from,
{
    if from >= MAX_DEVICES {
        MAX_DEVICES as int
    } else if !devices[from].used {
        from
    } else {
        first_device(devices, from + 1)
    }
}

/// What the kernel found out about a function before it assigns it.
#[derive(Clone, Copy, Debug, PartialEq, Eq, Structural)]
pub struct Transport {
    /// The kernel's mapping of its common configuration.
    pub common_config: u64,
    /// The kernel's mapping of its interrupt table.
    pub msix_table: u64,
    /// Whether it offers the modern transport.
    pub version_1: bool,
    /// Whether it offers platform-mediated access.
    pub access_platform: bool,
}

/// The label of the one kind of device this revision assigns.
pub open spec fn block_label() -> [u8; 16] {
    array_of(
        seq![
            0x76u8, 0x69, 0x72, 0x74, 0x69, 0x6F, 0x62, 0x6C, 0x6B, 0, 0, 0, 0, 0, 0, 0,
        ],
    )
}

impl MachineModel {
    /// A function can be assigned: it is sound, has an interrupt table, speaks
    /// the modern transport, and a slot, its charge and an identity are there.
    pub open spec fn can_assign(self, function: Function, transport: Transport, sponsor: u16) -> bool {
        &&& function_fault(function, 1) is None
        &&& function.msix is Some
        &&& transport.version_1
        &&& first_device(self.devices, 0) < MAX_DEVICES
        &&& self.affords(sponsor, Resource::Metadata, 1)
        &&& self.next_id < u64::MAX
    }

    /// The machine once a function has been assigned.
    pub open spec fn assigned(
        self,
        function: Function,
        transport: Transport,
        sponsor: u16,
        members: u32,
    ) -> MachineModel {
        let i = first_device(self.devices, 0);
        MachineModel {
            next_id: (self.next_id + 1) as u64,
            ..self.charge(sponsor, Resource::Metadata, 1)
        }.with_device(
            i,
            Device {
                used: true,
                generation: one_more(self.devices[i].generation),
                id: self.next_id,
                state: State::Ready,
                session: 1,
                sponsor,
                label: block_label(),
                bdf: function.bdf,
                vendor: function.vendor,
                device_id: function.device,
                class: function.class,
                regions: array_of(windows_of(function)),
                region_count: 4,
                msix: function.msix,
                msix_table: transport.msix_table,
                common_config: transport.common_config,
                access_platform: transport.access_platform,
                version_1: true,
                isolation_group: (function.bdf / 8) % 32,
                group_members: members,
                ..Device::empty_spec()
            },
        )
    }
}

/// Assigns one validated function, or refuses it.
///
/// The device is left as it was found: quiescent, decoding memory, not mastering
/// the bus.
pub fn assign(
    machine: &mut Machine,
    functions: &Vec<Function>,
    function: &Function,
    transport: &Transport,
    sponsor: u16,
) -> (device: Option<usize>)
    requires
        old(machine).wf(),
        sponsor < MAX_SCOPES,
        functions@.len() <= u32::MAX,
        function.wf(),
        function.msix matches Some(m) ==> m.table_offset <= 0xFFFF_FFFF && m.pba_offset
            <= 0xFFFF_FFFF,
    ensures
        final(machine).wf(),
        final(machine).same_tables(*old(machine)),
        if old(machine)@.can_assign(*function, *transport, sponsor) {
            &&& device == Some(first_device(old(machine)@.devices, 0) as usize)
            &&& final(machine)@ == old(machine)@.assigned(
                *function,
                *transport,
                sponsor,
                siblings(functions@, function.bdf, functions@.len() as int) as u32,
            )
        } else {
            &&& device is None
            &&& final(machine)@ == old(machine)@
        },
{
    let validated = validate(function);
    if validated.refusal.is_some() || function.msix.is_none() || !transport.version_1 {
        return None;
    }
    let mut i: usize = 0;
    while i < MAX_DEVICES && machine.device(i).used
        invariant
            machine.wf(),
            i <= MAX_DEVICES,
            first_device(machine@.devices, 0) == first_device(machine@.devices, i as int),
        decreases MAX_DEVICES - i,
    {
        i += 1;
    }
    if i == MAX_DEVICES || !machine.affords(sponsor, Resource::Metadata, 1) {
        return None;
    }
    let members: u32 = count_siblings(functions, function.bdf);
    let id: u64 = match machine.take_id() {
        None => {
            return None;
        },
        Some(id) => id,
    };
    machine.charge(sponsor, Resource::Metadata, 1);
    let generation: u32 = machine.device(i).generation.saturating_add(1);
    let label: [u8; 16] = [
        0x76, 0x69, 0x72, 0x74, 0x69, 0x6F, 0x62, 0x6C, 0x6B, 0, 0, 0, 0, 0, 0, 0,
    ];
    proof {
        assert(label@ =~= seq![
            0x76u8, 0x69, 0x72, 0x74, 0x69, 0x6F, 0x62, 0x6C, 0x6B, 0, 0, 0, 0, 0, 0, 0,
        ]);
        array_of_elements(label);
        array_of_elements(validated.regions);
        assert(validated.regions@ =~= windows_of(*function)) by {
            assert forall|k: int| 0 <= k < MAX_DEVICE_REGIONS implies #[trigger] validated.regions@[k]
                == windows_of(*function)[k] by {
                if k < 4 {
                    assert(is_window(*function, k + 1, validated.regions@[k]));
                }
            }
        }
    }
    let group: u32 = function.slot();
    proof {
        machine.wf_sized();
        machine.wf_stands();
        machine@.backing().absent_is_unwindowed(i as int);
    }
    machine.set_device(
        i,
        Device {
            used: true,
            generation,
            id,
            state: State::Ready,
            session: 1,
            sponsor,
            label,
            bdf: function.bdf,
            vendor: function.vendor,
            device_id: function.device,
            class: function.class,
            regions: validated.regions,
            region_count: 4,
            msix: function.msix,
            msix_table: transport.msix_table,
            common_config: transport.common_config,
            access_platform: transport.access_platform,
            version_1: true,
            isolation_group: group,
            group_members: members,
            ..Device::empty()
        },
    );
    Some(i)
}

/// Where the interrupt table of a function lies: the physical page it starts in,
/// the pages it touches, and its offset in the first.
pub fn table_window(function: &Function, msix: &Msix) -> (window: Option<(u64, u64, u64)>)
    requires
        function.wf(),
        msix.table_offset <= 0xFFFF_FFFF,
    ensures
        if msix.table_bar >= 6 {
            window is None
        } else {
            let start = function.bars@[msix.table_bar as int].base + msix.table_offset;
            let offset = msix.table_offset as int % 0x1000;
            window matches Some((phys, pages, within)) && {
                &&& phys == start / 0x1000 * 0x1000
                &&& pages == (offset + msix.vectors * 16 + 0xFFF) / 0x1000
                &&& within == offset
            }
        },
{
    if msix.table_bar >= 6 {
        return None;
    }
    let bar = function.bars[msix.table_bar as usize];
    assert(function.bars@[msix.table_bar as int].base <= 0x10_0000_0000_0000);
    let start: u64 = bar.base + msix.table_offset;
    let within: u64 = msix.table_offset % 0x1000;
    let pages: u64 = (within + msix.table_len() + 0xFFF) / 0x1000;
    Some((start / 0x1000 * 0x1000, pages, within))
}

/// What the run holds about devices.
#[derive(Clone, Copy, Debug, PartialEq, Eq, Structural)]
pub struct Summary {
    /// Devices assigned.
    pub assigned: u32,
    /// DMA grants outstanding.
    pub grants: u32,
    /// Register mappings outstanding.
    pub maps: u32,
    /// Interrupts bound.
    pub bindings: u32,
    /// Register mappings of a session that has ended.
    pub stale_maps: u32,
    /// Bindings of a session that has ended.
    pub stale_bindings: u32,
}

/// Places among the first `n` that `holds` names.
pub open spec fn tally(holds: spec_fn(int) -> bool, n: int) -> nat
    decreases n,
{
    if n <= 0 {
        0
    } else if holds(n - 1) {
        tally(holds, n - 1) + 1
    } else {
        tally(holds, n - 1)
    }
}

/// Everything the run holds about devices.
pub fn summarize(machine: &Machine) -> (summary: Summary)
    requires
        machine.wf(),
    ensures
        ({
            let m = machine@;
            &&& summary.assigned == tally(|i: int| m.devices[i].used, MAX_DEVICES as int)
            &&& summary.grants == tally(|i: int| m.dma_grants[i].used, MAX_DMA_GRANTS as int)
            &&& summary.maps == tally(|i: int| m.device_maps[i].used, MAX_DEVICE_MAPS as int)
            &&& summary.bindings == tally(|i: int| m.irqs[i].used, MAX_IRQ_BINDINGS as int)
            &&& summary.stale_maps == tally(
                |i: int|
                    m.device_maps[i].used && m.device_maps[i].session
                        != m.devices[m.device_maps[i].device as int].session,
                MAX_DEVICE_MAPS as int,
            )
            &&& summary.stale_bindings == tally(
                |i: int|
                    m.irqs[i].used && m.irqs[i].session
                        != m.devices[m.irqs[i].device as int].session,
                MAX_IRQ_BINDINGS as int,
            )
        }),
{
    let ghost m = machine@;
    let mut assigned: u32 = 0;
    for i in 0..MAX_DEVICES
        invariant
            machine.wf(),
            m == machine@,
            assigned <= i,
            assigned == tally(|i: int| m.devices[i].used, i as int),
    {
        if machine.device(i).used {
            assigned += 1;
        }
    }
    let mut grants: u32 = 0;
    for i in 0..MAX_DMA_GRANTS
        invariant
            machine.wf(),
            m == machine@,
            grants <= i,
            grants == tally(|i: int| m.dma_grants[i].used, i as int),
    {
        if machine.dma_grant(i).used {
            grants += 1;
        }
    }
    let mut maps: u32 = 0;
    let mut stale_maps: u32 = 0;
    for i in 0..MAX_DEVICE_MAPS
        invariant
            machine.wf(),
            m == machine@,
            maps <= i,
            stale_maps <= i,
            maps == tally(|i: int| m.device_maps[i].used, i as int),
            stale_maps == tally(
                |i: int|
                    m.device_maps[i].used && m.device_maps[i].session
                        != m.devices[m.device_maps[i].device as int].session,
                i as int,
            ),
    {
        let record = machine.device_map(i);
        if record.used {
            maps += 1;
            if record.session != machine.device(record.device as usize).session {
                stale_maps += 1;
            }
        }
    }
    let mut bindings: u32 = 0;
    let mut stale_bindings: u32 = 0;
    for i in 0..MAX_IRQ_BINDINGS
        invariant
            machine.wf(),
            m == machine@,
            bindings <= i,
            stale_bindings <= i,
            bindings == tally(|i: int| m.irqs[i].used, i as int),
            stale_bindings == tally(
                |i: int|
                    m.irqs[i].used && m.irqs[i].session
                        != m.devices[m.irqs[i].device as int].session,
                i as int,
            ),
    {
        let binding = machine.irq(i);
        if binding.used {
            bindings += 1;
            if binding.session != machine.device(binding.device as usize).session {
                stale_bindings += 1;
            }
        }
    }
    Summary { assigned, grants, maps, bindings, stale_maps, stale_bindings }
}

} // verus!
