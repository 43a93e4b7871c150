//! The state of the machine: every table the kernel keeps.

use vstd::array::spec_array_fill_for_copy_type;
use vstd::prelude::*;

use crate::abi::status::Status;
use crate::arch::x86_64::paging::{
    has_kernel_slots, is_kernel_slot, is_low_table, is_root, points_to, rooted, shares_kernel,
    shares_slot, upper_clear,
};
use crate::ctrl::{ControlLog, LogModel};
use crate::device::{Device, DmaGrant, IrqBinding};
use crate::events::{Signal, Timer};
use crate::ipc::{Endpoint, Invocation, Message, NO_DOMAIN};
use crate::kstack::stacks_ok;
use crate::limits::{
    MAX_CAPS, MAX_CONTROL_LOGS, MAX_CPUS, MAX_DEVICES, MAX_DEVICE_MAPS, MAX_DEVICE_REGIONS,
    MAX_DMA_GRANTS, MAX_DOMAINS, MAX_ENDPOINTS, MAX_GRANTS, MAX_INVOCATIONS, MAX_IRQ_BINDINGS,
    MAX_MAPS, MAX_MEMORY_OBJECTS, MAX_MESSAGES, MAX_MESSAGE_CAPS, MAX_SCOPES, MAX_SIGNALS,
    MAX_THREADS, MAX_THREADS_PER_DOMAIN, MAX_TIMERS,
};
use crate::memobj::{MapRecord, MemoryObject, State as MemState};
use crate::mm::{Frame, FrameAllocator, FrameUse, Owner, PHYSICAL_FRAMES};
use crate::obj::{CapEntry, Grant, ObjKind, ObjRef, NO_GRANT};
use crate::page_table::{lookup, Label, Page};
use crate::scope::{scopes_wf, Scope};

verus! {

/// Lifecycle of a domain.
#[derive(Clone, Copy, PartialEq, Eq, Debug, Structural)]
pub enum DomainState {
    /// Free table slot.
    Empty,
    /// Under construction; executes nothing.
    Building,
    /// May execute.
    Runnable,
    /// Stopped by a fault of its own.
    Faulted,
    /// Stopped otherwise.
    Stopping,
    /// Reclaimed.
    Dead,
}

impl DomainState {
    /// The number [`DomainState::abi`] returns.
    pub open spec fn abi_spec(self) -> u32 {
        match self {
            DomainState::Empty => 0,
            DomainState::Building => 1,
            DomainState::Runnable => 2,
            DomainState::Faulted => 3,
            DomainState::Stopping => 4,
            DomainState::Dead => 5,
        }
    }

    /// Number reported in a domain descriptor.
    pub fn abi(self) -> (number: u32)
        ensures
            number == self.abi_spec(),
    {
        match self {
            DomainState::Empty => 0,
            DomainState::Building => 1,
            DomainState::Runnable => 2,
            DomainState::Faulted => 3,
            DomainState::Stopping => 4,
            DomainState::Dead => 5,
        }
    }
}

/// Why a domain ended.
#[derive(Clone, Copy, PartialEq, Eq, Debug, Structural)]
pub enum ExitReason {
    /// A fault of its own.
    UserFault,
    /// Its own request.
    Voluntary,
    /// The authority of another domain.
    Terminated,
}

/// A fault as the processor reported it.
#[derive(Clone, Copy, PartialEq, Eq, Debug, Structural)]
pub struct FaultRecord {
    /// Exception vector.
    pub vector: u64,
    /// Error code.
    pub error_code: u64,
    /// Faulting address.
    pub cr2: u64,
    /// Instruction.
    pub rip: u64,
    /// Stack pointer.
    pub rsp: u64,
    /// Code selector.
    pub cs: u64,
}

/// A protection domain.
#[derive(Clone, Copy, Debug)]
pub struct Domain {
    /// Lifecycle state.
    pub state: DomainState,
    /// Generation of this table slot.
    pub generation: u32,
    /// Diagnostic identity.
    pub id: u64,
    /// Scope that pays for it.
    pub owner_scope: u16,
    /// Whether a supervisor builds it.
    pub managed: bool,
    /// Name, NUL padded.
    pub name: [u8; 32],
    /// Significant bytes of the name.
    pub name_len: usize,
    /// Entry point.
    pub entry: u64,
    /// Segments mapped.
    pub segments: u32,
    /// Pages of the image.
    pub image_pages: u64,
    /// Whether the initial stack is mapped.
    pub stack_mapped: bool,
    /// Topmost table of its address space.
    pub space: Option<Frame>,
    /// Its threads.
    pub threads: [Option<u16>; MAX_THREADS_PER_DOMAIN],
    /// Pages its scope is charged for it.
    pub reserved_pages: u64,
    /// Kernel records its scope is charged for it.
    pub reserved_metadata: u64,
    /// Endpoint its faults are reported on.
    pub fault_endpoint: Option<ObjRef>,
    /// Grant that channel was installed under.
    pub fault_grant: u16,
    /// Facet of that grant.
    pub fault_facet: u64,
    /// Whether a cell is reserved on that endpoint.
    pub fault_reserved: bool,
    /// Last fault.
    pub fault: Option<FaultRecord>,
    /// Faults so far.
    pub faults: u32,
    /// Why it ended.
    pub exit_reason: Option<ExitReason>,
    /// What it said when it ended.
    pub exit_code: u64,
    /// Capability entries naming it.
    pub refs: u32,
    /// Operations refused to it.
    pub refusals: u64,
    /// Refusals that were recorded one by one.
    pub refusal_records: u32,
    /// Processors it was ever dispatched on, one bit each.
    pub cpu_mask: u64,
}

impl Domain {
    /// A free slot of the given generation.
    pub open spec fn empty_spec(generation: u32) -> Domain {
        Domain {
            state: DomainState::Empty,
            generation,
            id: 0,
            owner_scope: 0,
            managed: false,
            name: spec_array_fill_for_copy_type::<u8, 32>(0),
            name_len: 0,
            entry: 0,
            segments: 0,
            image_pages: 0,
            stack_mapped: false,
            space: None,
            threads: spec_array_fill_for_copy_type::<Option<u16>, MAX_THREADS_PER_DOMAIN>(None),
            reserved_pages: 0,
            reserved_metadata: 0,
            fault_endpoint: None,
            fault_grant: NO_GRANT,
            fault_facet: 0,
            fault_reserved: false,
            fault: None,
            faults: 0,
            exit_reason: None,
            exit_code: 0,
            refs: 0,
            refusals: 0,
            refusal_records: 0,
            cpu_mask: 0,
        }
    }

    /// A free slot of the given generation.
    pub fn empty(generation: u32) -> (domain: Domain)
        ensures
            domain == Domain::empty_spec(generation),
    {
        let none: Option<u16> = None;
        Domain {
            state: DomainState::Empty,
            generation,
            id: 0,
            owner_scope: 0,
            managed: false,
            name: [0u8; 32],
            name_len: 0,
            entry: 0,
            segments: 0,
            image_pages: 0,
            stack_mapped: false,
            space: None,
            threads: [none; MAX_THREADS_PER_DOMAIN],
            reserved_pages: 0,
            reserved_metadata: 0,
            fault_endpoint: None,
            fault_grant: NO_GRANT,
            fault_facet: 0,
            fault_reserved: false,
            fault: None,
            faults: 0,
            exit_reason: None,
            exit_code: 0,
            refs: 0,
            refusals: 0,
            refusal_records: 0,
            cpu_mask: 0,
        }
    }
}

/// Lifecycle of a thread.
#[derive(Clone, Copy, PartialEq, Eq, Debug, Structural)]
pub enum ThreadState {
    /// Free table slot.
    Empty,
    /// Allocated, unschedulable until activation.
    Held,
    /// Waiting for a processor.
    Ready,
    /// On a processor.
    Running,
    /// Waiting for an event.
    Blocked,
    /// Stopped for good.
    Dead,
}

/// What a blocked thread waits for.
#[derive(Clone, Copy, PartialEq, Eq, Debug, Structural)]
pub enum Wait {
    /// Nothing.
    Nothing,
    /// The reply to an invocation.
    Reply(u16, u32),
    /// A message on an endpoint.
    Receive(u16, u32),
    /// Bits of a signal.
    Signal(u16, u32, u64),
    /// A batch of receipts.
    Log(u16, u32),
}

/// Where a woken thread should run.
#[derive(Clone, Copy, PartialEq, Eq, Debug, Structural)]
pub enum WakeHint {
    /// On an idle processor.
    Any,
    /// On the processor the waker is about to leave.
    Sync,
}

/// A thread.
#[derive(Clone, Copy, Debug)]
pub struct Thread {
    /// Lifecycle state.
    pub state: ThreadState,
    /// Diagnostic identity.
    pub id: u64,
    /// Domain it belongs to.
    pub domain: u16,
    /// Generation of that domain.
    pub domain_generation: u32,
    /// Scope of that domain.
    pub owner_scope: u16,
    /// Scope its time is charged to.
    pub effective_scope: u16,
    /// Whether that time is recovery spending.
    pub recovery: bool,
    /// Invocation it works for.
    pub bound: Option<(u16, u32)>,
    /// Scope whose parallelism it holds a slot of.
    pub parallelism_scope: Option<u16>,
    /// What it waits for.
    pub wait: Wait,
    /// When the wait ends by itself, or zero.
    pub wait_deadline_ns: u64,
    /// How the last wait ended.
    pub wake_status: Status,
    /// Where it should run next.
    pub wake_hint: WakeHint,
    /// Kernel stack slot.
    pub kstack_slot: u16,
    /// Top of that stack, or zero.
    pub kstack_top: u64,
    /// Entry point.
    pub entry: u64,
    /// Top of its user stack.
    pub stack_top: u64,
    /// Argument of the entry point.
    pub argument: u64,
}

impl Thread {
    /// A free slot.
    pub open spec fn empty_spec() -> Thread {
        Thread {
            state: ThreadState::Empty,
            id: 0,
            domain: 0,
            domain_generation: 0,
            owner_scope: 0,
            effective_scope: 0,
            recovery: false,
            bound: None,
            parallelism_scope: None,
            wait: Wait::Nothing,
            wait_deadline_ns: 0,
            wake_status: Status::Success,
            wake_hint: WakeHint::Any,
            kstack_slot: 0,
            kstack_top: 0,
            entry: 0,
            stack_top: 0,
            argument: 0,
        }
    }

    /// A free slot.
    pub fn empty() -> (thread: Thread)
        ensures
            thread == Thread::empty_spec(),
    {
        Thread {
            state: ThreadState::Empty,
            id: 0,
            domain: 0,
            domain_generation: 0,
            owner_scope: 0,
            effective_scope: 0,
            recovery: false,
            bound: None,
            parallelism_scope: None,
            wait: Wait::Nothing,
            wait_deadline_ns: 0,
            wake_status: Status::Success,
            wake_hint: WakeHint::Any,
            kstack_slot: 0,
            kstack_top: 0,
            entry: 0,
            stack_top: 0,
            argument: 0,
        }
    }
}

/// What a processor stands on.
#[derive(Clone, Copy, Debug, PartialEq, Eq, Structural)]
pub struct Cpu {
    /// Whether it takes part.
    pub online: bool,
    /// Invalidation generation it has flushed past.
    pub flushed: u64,
    /// Domain whose address space it has loaded.
    pub space: Option<u16>,
    /// Thread it runs.
    pub current: Option<u16>,
    /// Thread it is leaving and has not yet published.
    pub leaving: Option<u16>,
}

/// The machine.
pub struct Machine {
    /// Scopes.
    pub scopes: Vec<Scope>,
    /// Grant nodes.
    pub grants: Vec<Grant>,
    /// Where the search for a free grant node starts.
    pub grant_hint: usize,
    /// Domains.
    pub domains: Vec<Domain>,
    /// Capability slots of all domains.
    pub caps: Vec<CapEntry>,
    /// Threads.
    pub threads: Vec<Thread>,
    /// Kernel stack slots in use.
    pub kstacks: Vec<bool>,
    /// Memory objects.
    pub memories: Vec<MemoryObject>,
    /// Mappings of memory objects.
    pub maps: Vec<MapRecord>,
    /// Endpoints.
    pub endpoints: Vec<Endpoint>,
    /// Messages of each endpoint, in admission order.
    pub queues: Vec<Vec<u16>>,
    /// Messages.
    pub messages: Vec<Message>,
    /// Invocations.
    pub invocations: Vec<Invocation>,
    /// Signals.
    pub signals: Vec<Signal>,
    /// Timers.
    pub timers: Vec<Timer>,
    /// Control logs.
    pub logs: Vec<ControlLog>,
    /// Devices.
    pub devices: Vec<Device>,
    /// Mappings of device registers.
    pub device_maps: Vec<crate::device::MapRecord>,
    /// Pages devices may reach.
    pub dma_grants: Vec<DmaGrant>,
    /// Interrupts routed to signals.
    pub irqs: Vec<IrqBinding>,
    /// Processors.
    pub cpus: Vec<Cpu>,
    /// Physical frames and page tables.
    pub frames: FrameAllocator,
    /// Topmost table of the kernel's address space.
    pub kernel_space: Option<Frame>,
    /// Next diagnostic identity.
    pub next_id: u64,
    /// Log that covers admissions, once there is one.
    pub system_log: Option<u16>,
    /// Identity of this boot.
    pub boot_epoch: u64,
    /// Latest published invalidation generation.
    pub published: u64,
    /// Whether the firmware described a DMA remapping unit.
    pub iommu_described: bool,
    /// Whether one is programmed.
    pub iommu_translating: bool,
    /// Interrupts delivered to a binding.
    pub delivered: u64,
    /// Interrupts that arrived for no binding.
    pub unclaimed: u64,
    /// Faults of user programs.
    pub user_faults: u64,
    /// Whether a stopped domain waits to be reclaimed.
    pub dead_pending: bool,
}

/// What every address of the lower half translates to in every address space:
/// level and entry of the walk from each topmost table.
#[verifier::opaque]
pub open spec fn translations(mem: Seq<Page>, labels: Seq<Label>) -> Map<(int, u64), (nat, u64)> {
    Map::new(
        |k: (int, u64)|
            {
                &&& k.1 < 0x8000_0000_0000
                &&& 0 <= k.0 < mem.len()
                &&& labels[k.0] == Some((3nat, 0int))
                &&& lookup(0, mem, k.0, 3, k.1) is Some
            },
        |k: (int, u64)| lookup(0, mem, k.0, 3, k.1)->0,
    )
}

/// The machine as mathematical values.
#[verifier::ext_equal]
pub struct MachineModel {
    /// Scopes.
    pub scopes: Seq<Scope>,
    /// Grant nodes.
    pub grants: Seq<Grant>,
    /// Where the search for a free grant node starts.
    pub grant_hint: usize,
    /// Domains.
    pub domains: Seq<Domain>,
    /// Capability slots of all domains.
    pub caps: Seq<CapEntry>,
    /// Threads.
    pub threads: Seq<Thread>,
    /// Kernel stack slots in use.
    pub kstacks: Seq<bool>,
    /// Memory objects.
    pub memories: Seq<MemoryObject>,
    /// Mappings of memory objects.
    pub maps: Seq<MapRecord>,
    /// Endpoints.
    pub endpoints: Seq<Endpoint>,
    /// Messages of each endpoint, in admission order.
    pub queues: Seq<Seq<u16>>,
    /// Messages.
    pub messages: Seq<Message>,
    /// Invocations.
    pub invocations: Seq<Invocation>,
    /// Signals.
    pub signals: Seq<Signal>,
    /// Timers.
    pub timers: Seq<Timer>,
    /// Control logs.
    pub logs: Seq<LogModel>,
    /// Devices.
    pub devices: Seq<Device>,
    /// Mappings of device registers.
    pub device_maps: Seq<crate::device::MapRecord>,
    /// Pages devices may reach.
    pub dma_grants: Seq<DmaGrant>,
    /// Interrupts routed to signals.
    pub irqs: Seq<IrqBinding>,
    /// Processors.
    pub cpus: Seq<Cpu>,
    /// Uses of the physical frames.
    pub uses: Seq<FrameUse>,
    /// Level and entry that translate each address of the lower half in each
    /// address space, by the frame of the topmost table.
    pub pages: Map<(int, u64), (nat, u64)>,
    /// Topmost table of the kernel's address space.
    pub kernel_space: Option<Frame>,
    /// Next diagnostic identity.
    pub next_id: u64,
    /// Log that covers admissions, once there is one.
    pub system_log: Option<u16>,
    /// Identity of this boot.
    pub boot_epoch: u64,
    /// Latest published invalidation generation.
    pub published: u64,
    /// Whether the firmware described a DMA remapping unit.
    pub iommu_described: bool,
    /// Whether one is programmed.
    pub iommu_translating: bool,
    /// Interrupts delivered to a binding.
    pub delivered: u64,
    /// Interrupts that arrived for no binding.
    pub unclaimed: u64,
    /// Faults of user programs.
    pub user_faults: u64,
    /// Whether a stopped domain waits to be reclaimed.
    pub dead_pending: bool,
}

impl View for Machine {
    type V = MachineModel;

    open spec fn view(&self) -> MachineModel {
        MachineModel {
            scopes: self.scopes@,
            grants: self.grants@,
            grant_hint: self.grant_hint,
            domains: self.domains@,
            caps: self.caps@,
            threads: self.threads@,
            kstacks: self.kstacks@,
            memories: self.memories@,
            maps: self.maps@,
            endpoints: self.endpoints@,
            queues: Seq::new(self.queues@.len(), |i: int| self.queues@[i]@),
            messages: self.messages@,
            invocations: self.invocations@,
            signals: self.signals@,
            timers: self.timers@,
            logs: Seq::new(self.logs@.len(), |i: int| self.logs@[i]@),
            devices: self.devices@,
            device_maps: self.device_maps@,
            dma_grants: self.dma_grants@,
            irqs: self.irqs@,
            cpus: self.cpus@,
            uses: self.frames.uses@,
            pages: translations(self.frames.memory@, self.frames.labels@),
            kernel_space: self.kernel_space,
            next_id: self.next_id,
            system_log: self.system_log,
            boot_epoch: self.boot_epoch,
            published: self.published,
            iommu_described: self.iommu_described,
            iommu_translating: self.iommu_translating,
            delivered: self.delivered,
            unclaimed: self.unclaimed,
            user_faults: self.user_faults,
            dead_pending: self.dead_pending,
        }
    }
}

/// Slots in the table of a kind of object.
pub open spec fn table_len(kind: ObjKind) -> int {
    match kind {
        ObjKind::Scope => MAX_SCOPES as int,
        ObjKind::Domain => MAX_DOMAINS as int,
        ObjKind::Memory => MAX_MEMORY_OBJECTS as int,
        ObjKind::Endpoint => MAX_ENDPOINTS as int,
        ObjKind::Invocation => MAX_INVOCATIONS as int,
        ObjKind::Signal => MAX_SIGNALS as int,
        ObjKind::Timer => MAX_TIMERS as int,
        ObjKind::ControlLog => MAX_CONTROL_LOGS as int,
        ObjKind::Device => MAX_DEVICES as int,
    }
}

/// The object lies in its table.
pub open spec fn ref_ok(o: ObjRef) -> bool {
    o.index < table_len(o.kind)
}

/// The grant position names a node or none.
pub open spec fn grant_ref_ok(g: u16) -> bool {
    g == NO_GRANT || g < MAX_GRANTS
}

/// The positions a grant node holds lie in their tables.
pub open spec fn grant_ok(g: Grant) -> bool {
    &&& grant_ref_ok(g.parent)
    &&& g.sponsor < MAX_SCOPES
    &&& g.life_scope matches Some(s) ==> s < MAX_SCOPES
    &&& ref_ok(g.object)
}

/// The positions a capability slot holds lie in their tables.
pub open spec fn cap_ok(c: CapEntry) -> bool {
    ref_ok(c.object) && grant_ref_ok(c.grant)
}

/// The positions a domain holds lie in their tables.
pub open spec fn domain_ok(d: Domain) -> bool {
    &&& d.owner_scope < MAX_SCOPES
    &&& d.fault_endpoint matches Some(o) ==> o.kind == ObjKind::Endpoint && ref_ok(o)
    &&& grant_ref_ok(d.fault_grant)
    &&& d.name_len <= 32
    &&& d.state == DomainState::Empty ==> d.space is None
    &&& forall|i: int|
        0 <= i < MAX_THREADS_PER_DOMAIN ==> (#[trigger] d.threads@[i] matches Some(t) ==> t
            < MAX_THREADS)
}

/// The positions a thread holds lie in their tables.
pub open spec fn thread_ok(t: Thread) -> bool {
    &&& t.domain < MAX_DOMAINS
    &&& t.owner_scope < MAX_SCOPES
    &&& t.effective_scope < MAX_SCOPES
    &&& t.bound matches Some((i, _)) ==> i < MAX_INVOCATIONS
    &&& t.parallelism_scope matches Some(s) ==> s < MAX_SCOPES
    &&& t.kstack_slot < MAX_THREADS
}

/// The positions a memory object holds lie in their tables.
pub open spec fn memory_ok(m: MemoryObject) -> bool {
    &&& m.sponsor < MAX_SCOPES
    &&& m.base.number + m.pages <= PHYSICAL_FRAMES
    &&& m.state == MemState::Sealed ==> m.writable_maps == 0
}

/// The positions a mapping holds lie in their tables.
pub open spec fn map_ok(r: MapRecord) -> bool {
    &&& r.memory < MAX_MEMORY_OBJECTS
    &&& r.domain < MAX_DOMAINS
    &&& grant_ref_ok(r.grant)
    &&& r.scope < MAX_SCOPES
    &&& r.vaddr + r.pages * 0x1000 <= 0x8000_0000_0000
    &&& r.vaddr % 0x1000 == 0
}

/// The positions an endpoint holds lie in their tables.
pub open spec fn endpoint_ok(e: Endpoint) -> bool {
    e.owner_scope < MAX_SCOPES && (e.receiver_domain == NO_DOMAIN || e.receiver_domain
        < MAX_DOMAINS)
}

/// The positions a message holds lie in their tables.
pub open spec fn message_ok(m: Message) -> bool {
    &&& m.endpoint < MAX_ENDPOINTS
    &&& m.invocation < MAX_INVOCATIONS
    &&& m.cap_count <= MAX_MESSAGE_CAPS
    &&& forall|i: int|
        0 <= i < m.cap_count ==> (#[trigger] m.caps@[i]).slot < MAX_CAPS && grant_ref_ok(
            m.caps@[i].grant,
        )
}

/// The positions an invocation holds lie in their tables.
pub open spec fn invocation_ok(i: Invocation) -> bool {
    &&& i.endpoint < MAX_ENDPOINTS
    &&& i.origin_domain < MAX_DOMAINS
    &&& i.origin_scope < MAX_SCOPES
    &&& i.waiter matches Some(t) ==> t < MAX_THREADS
    &&& grant_ref_ok(i.grant)
    &&& i.closure_service < MAX_SCOPES
}

/// The positions a device mapping holds lie in their tables.
pub open spec fn device_map_ok(r: crate::device::MapRecord) -> bool {
    &&& r.device < MAX_DEVICES
    &&& r.domain < MAX_DOMAINS
    &&& r.scope < MAX_SCOPES
    &&& r.vaddr + r.pages * 0x1000 <= 0x8000_0000_0000
    &&& r.vaddr % 0x1000 == 0
}

/// The positions a signal holds lie in their tables.
pub open spec fn signal_ok(s: Signal) -> bool {
    s.owner_scope < MAX_SCOPES
}

/// The positions a timer holds lie in their tables.
pub open spec fn timer_ok(t: Timer) -> bool {
    t.owner_scope < MAX_SCOPES && t.signal < MAX_SIGNALS
}

/// The positions a device holds lie in their tables, and its regions in the
/// physical address space. A device that is not there has none.
pub open spec fn device_ok(d: Device) -> bool {
    &&& d.sponsor < MAX_SCOPES
    &&& d.region_count <= MAX_DEVICE_REGIONS
    &&& !d.used ==> d.region_count == 0
    &&& forall|i: int|
        0 <= i < MAX_DEVICE_REGIONS ==> crate::device::region_ok(#[trigger] d.regions@[i])
}

/// The positions a DMA grant holds lie in their tables.
pub open spec fn dma_grant_ok(g: DmaGrant) -> bool {
    g.device < MAX_DEVICES && g.memory < MAX_MEMORY_OBJECTS && g.scope < MAX_SCOPES
}

/// The positions an interrupt binding holds lie in their tables.
pub open spec fn irq_ok(b: IrqBinding) -> bool {
    &&& b.device < MAX_DEVICES
    &&& b.signal < MAX_SIGNALS
    &&& b.used ==> crate::device::is_device_vector(b.vector)
}

/// The positions a processor holds lie in their tables.
pub open spec fn cpu_ok(c: Cpu) -> bool {
    &&& c.space matches Some(d) ==> d < MAX_DOMAINS
    &&& c.current matches Some(t) ==> t < MAX_THREADS
    &&& c.leaving matches Some(t) ==> t < MAX_THREADS
}

impl MachineModel {
    /// Every table has its size.
    pub open spec fn sized(self) -> bool {
        &&& self.grants.len() == MAX_GRANTS
        &&& self.domains.len() == MAX_DOMAINS
        &&& crate::obj::caps_wf(self.caps)
        &&& self.threads.len() == MAX_THREADS
        &&& self.kstacks.len() == MAX_THREADS
        &&& self.memories.len() == MAX_MEMORY_OBJECTS
        &&& self.maps.len() == MAX_MAPS
        &&& self.endpoints.len() == MAX_ENDPOINTS
        &&& self.queues.len() == MAX_ENDPOINTS
        &&& self.messages.len() == MAX_MESSAGES
        &&& self.invocations.len() == MAX_INVOCATIONS
        &&& self.signals.len() == MAX_SIGNALS
        &&& self.timers.len() == MAX_TIMERS
        &&& self.logs.len() == MAX_CONTROL_LOGS
        &&& self.devices.len() == MAX_DEVICES
        &&& self.device_maps.len() == MAX_DEVICE_MAPS
        &&& self.dma_grants.len() == MAX_DMA_GRANTS
        &&& self.irqs.len() == MAX_IRQ_BINDINGS
        &&& self.cpus.len() == MAX_CPUS
        &&& self.grant_hint <= MAX_GRANTS
        &&& self.system_log matches Some(l) ==> l < MAX_CONTROL_LOGS
    }

    /// Every table has its size, the scopes form a tree, and every position
    /// that a table holds lies in the table it points into.
    pub open spec fn wf(self) -> bool {
        &&& self.sized()
        &&& scopes_wf(self.scopes)
        &&& forall|i: int| 0 <= i < MAX_GRANTS ==> grant_ok(#[trigger] self.grants[i])
        &&& forall|i: int| 0 <= i < self.caps.len() ==> cap_ok(#[trigger] self.caps[i])
        &&& forall|i: int| 0 <= i < MAX_DOMAINS ==> domain_ok(#[trigger] self.domains[i])
        &&& forall|i: int| 0 <= i < MAX_THREADS ==> thread_ok(#[trigger] self.threads[i])
        &&& forall|i: int|
            0 <= i < MAX_MEMORY_OBJECTS ==> memory_ok(#[trigger] self.memories[i])
        &&& forall|i: int| 0 <= i < MAX_MAPS ==> map_ok(#[trigger] self.maps[i])
        &&& forall|i: int| 0 <= i < MAX_ENDPOINTS ==> endpoint_ok(#[trigger] self.endpoints[i])
        &&& forall|i: int, k: int|
            0 <= i < MAX_ENDPOINTS && 0 <= k < self.queues[i].len() ==> #[trigger] self.queues[i][k]
                < MAX_MESSAGES
        &&& forall|i: int| 0 <= i < MAX_MESSAGES ==> message_ok(#[trigger] self.messages[i])
        &&& forall|i: int|
            0 <= i < MAX_INVOCATIONS ==> invocation_ok(#[trigger] self.invocations[i])
        &&& forall|i: int| 0 <= i < MAX_SIGNALS ==> signal_ok(#[trigger] self.signals[i])
        &&& forall|i: int| 0 <= i < MAX_TIMERS ==> timer_ok(#[trigger] self.timers[i])
        &&& forall|i: int| 0 <= i < MAX_DEVICES ==> device_ok(#[trigger] self.devices[i])
        &&& forall|i: int|
            0 <= i < MAX_DEVICE_MAPS ==> device_map_ok(#[trigger] self.device_maps[i])
        &&& forall|i: int| 0 <= i < MAX_DMA_GRANTS ==> dma_grant_ok(#[trigger] self.dma_grants[i])
        &&& forall|i: int| 0 <= i < MAX_IRQ_BINDINGS ==> irq_ok(#[trigger] self.irqs[i])
        &&& forall|i: int| 0 <= i < MAX_CPUS ==> cpu_ok(#[trigger] self.cpus[i])
    }
}

/// Two records of a domain agree on how far it has come and on how it ended.
pub open spec fn ends_alike(before: Domain, after: Domain) -> bool {
    &&& after.state == before.state
    &&& after.exit_reason == before.exit_reason
    &&& after.exit_code == before.exit_code
}

/// No mapping came or went, and every domain is in the state it was in.
#[verifier::opaque]
pub open spec fn is_calm(before: MachineModel, after: MachineModel) -> bool {
    &&& after.maps == before.maps
    &&& after.domains.len() == before.domains.len()
    &&& forall|d: int|
        0 <= d < before.domains.len() ==> ends_alike(before.domains[d], #[trigger] after.domains[d])
}

/// What is calm stays so over a step that is.
pub proof fn calm_goes_on(a: MachineModel, b: MachineModel, c: MachineModel)
    requires
        is_calm(a, b),
        is_calm(b, c),
    ensures
        is_calm(a, c),
{
    reveal(is_calm);
    assert forall|d: int| 0 <= d < a.domains.len() implies ends_alike(
        a.domains[d],
        #[trigger] c.domains[d],
    ) by {
        assert(ends_alike(a.domains[d], b.domains[d]));
    }
}

/// A step that leaves mappings and domains alone is calm.
pub proof fn untouched_is_calm(a: MachineModel, b: MachineModel)
    requires
        b.maps == a.maps,
        b.domains == a.domains,
    ensures
        is_calm(a, b),
{
    reveal(is_calm);
}

impl Machine {
    /// The model is well formed, and so are the frames, every log and every
    /// kernel stack slot.
    pub open spec fn wf(self) -> bool {
        self.wf_but(-1)
    }

    /// The machine is well formed, but perhaps for one kernel stack slot that is
    /// being made or taken down.
    #[verifier::opaque]
    pub open spec fn wf_but(self, slot: int) -> bool {
        &&& self@.wf()
        &&& self.frames.wf()
        &&& self.spaces_ok()
        &&& forall|i: int| 0 <= i < self.logs@.len() ==> (#[trigger] self.logs@[i]).wf()
        &&& stacks_ok(self.frames.memory@, self.kernel_space, self.kstacks@, slot)
        &&& self@.backing().stands()
    }

    /// What the pages of the domains stand on is there.
    pub proof fn wf_stands(self)
        requires
            self.wf(),
        ensures
            self@.backing().stands(),
    {
        reveal(Machine::wf_but);
    }

    /// Every domain that has an address space has one of its own, and so does
    /// the kernel.
    pub open spec fn spaces_ok(self) -> bool {
        &&& forall|d: int|
            0 <= d < self.domains@.len() ==> (#[trigger] self.domains@[d].space matches Some(f)
                ==> is_root(self.frames, f.number as int) && upper_clear(
                self.frames,
                f.number as int,
            ) && self.kernel_space != Some(f))
        &&& forall|d: int, e: int|
            0 <= d < e < self.domains@.len() ==> ((#[trigger] self.domains@[d].space) is Some
                ==> self.domains@[d].space != #[trigger] self.domains@[e].space)
        &&& self.kernel_space matches Some(f) ==> is_root(self.frames, f.number as int)
        &&& self.kernel_is_shared()
        &&& self.tables_are_owned()
    }

    /// The kernel's slots are there, and every space of a domain shares them: what
    /// the kernel maps below them later is seen from every space.
    pub open spec fn kernel_is_shared(self) -> bool {
        self.kernel_space matches Some(f) ==> {
            &&& has_kernel_slots(self.frames, f.number as int)
            &&& forall|d: int|
                0 <= d < self.domains@.len() ==> (#[trigger] self.domains@[d].space matches Some(g)
                    ==> shares_kernel(self.frames, g.number as int, f.number as int))
        }
    }

    /// Every table of a lower half has the entry that leads to it, and a table of
    /// a domain is the topmost of its space or lies in its lower half.
    pub open spec fn tables_are_owned(self) -> bool {
        &&& rooted(self.frames)
        &&& forall|i: int|
            0 <= i < self.frames.uses@.len() ==> self.table_is_owned(
                #[trigger] self.frames.uses@[i],
                i,
            )
    }

    /// What a frame used as `u` owes to the domain whose table it is, if it is
    /// one.
    pub open spec fn table_is_owned(self, u: FrameUse, i: int) -> bool {
        u matches FrameUse::Table(Owner::Domain(d)) ==> {
            &&& d < self.domains@.len()
            &&& self.domains@[d as int].space matches Some(f) && {
                &&& self.frames.homes@[i] == f.number
                &&& i == f.number || is_low_table(self.frames, i)
            }
        }
    }

    /// Tables stay owned and shared where no frame became a table and no space
    /// came or went.
    pub proof fn owned_tables_stay(self, before: Machine)
        requires
            before.spaces_ok(),
            self.same_tables(before),
            self.kernel_space == before.kernel_space,
            self.domains@.len() == before.domains@.len(),
            forall|d: int|
                0 <= d < before.domains@.len() ==> #[trigger] self.domains@[d].space
                    == before.domains@[d].space,
            self.frames.uses@.len() == before.frames.uses@.len(),
            forall|i: int|
                0 <= i < before.frames.uses@.len() && (#[trigger] self.frames.uses@[i]) is Table
                    ==> self.frames.uses@[i] == before.frames.uses@[i],
        ensures
            self.kernel_is_shared(),
            self.tables_are_owned(),
    {
        assert(rooted(self.frames)) by {
            assert forall|t: int|
                0 <= t < self.frames.frames() && #[trigger] is_low_table(self.frames, t) implies {
                let (x, k) = self.frames.parents@[t];
                0 <= x < self.frames.frames() && 0 <= k < 512 && points_to(self.frames, x, k, t)
            } by {
                let (x, k) = self.frames.parents@[t];
                assert(is_low_table(before.frames, t));
                assert(points_to(before.frames, x, k, t));
            }
        }
        assert forall|i: int| 0 <= i < self.frames.uses@.len() implies self.table_is_owned(
            #[trigger] self.frames.uses@[i],
            i,
        ) by {
            assert(before.table_is_owned(before.frames.uses@[i], i));
            if let FrameUse::Table(Owner::Domain(d)) = self.frames.uses@[i] {
                assert(self.domains@[d as int].space == before.domains@[d as int].space);
                if is_low_table(before.frames, i) {
                    assert(is_low_table(self.frames, i));
                }
            }
        }
        if self.kernel_space is Some {
            let f = (self.kernel_space->0).number as int;
            assert forall|d: int| 0 <= d < self.domains@.len() implies (
            #[trigger] self.domains@[d].space matches Some(g) ==> shares_kernel(
                self.frames,
                g.number as int,
                f,
            )) by {
                assert(self.domains@[d].space == before.domains@[d].space);
                if let Some(g) = self.domains@[d].space {
                    assert(shares_kernel(before.frames, g.number as int, f));
                    assert forall|k: int| #[trigger] is_kernel_slot(k) implies shares_slot(
                        self.frames,
                        g.number as int,
                        f,
                        k,
                    ) by {
                        assert(shares_slot(before.frames, g.number as int, f, k));
                    }
                }
            }
            assert forall|k: int| #[trigger] is_kernel_slot(k) implies shares_slot(
                self.frames,
                f,
                f,
                k,
            ) by {
                assert(shares_slot(before.frames, f, f, k));
            }
        }
    }

    /// Only the uses of frames changed, not what the frames hold.
    pub open spec fn same_tables(self, before: Machine) -> bool {
        &&& self.frames.memory == before.frames.memory
        &&& self.frames.labels == before.frames.labels
        &&& self.frames.parents == before.frames.parents
        &&& self.frames.homes == before.frames.homes
    }

    /// Takes the next identity; `None` when they are used up.
    pub fn take_id(&mut self) -> (id: Option<u64>)
        requires
            old(self).wf(),
        ensures
            final(self).wf(),
            final(self).same_tables(*old(self)),
            if old(self).next_id < u64::MAX {
                &&& id == Some(old(self).next_id)
                &&& final(self)@ == (MachineModel {
                    next_id: (old(self).next_id + 1) as u64,
                    ..old(self)@
                })
            } else {
                &&& id is None
                &&& *final(self) == *old(self)
            },
    {
        proof {
            reveal(Machine::wf_but);
        }
        if self.next_id == u64::MAX {
            return None;
        }
        let id: u64 = self.next_id;
        self.next_id = id + 1;
        assert(self@ =~= (MachineModel { next_id: (old(self).next_id + 1) as u64, ..old(self)@ }));
        Some(id)
    }
}

} // verus!
