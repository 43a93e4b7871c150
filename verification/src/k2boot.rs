//! Establishing the resource tree and the first supervisor.
//!
//! The kernel builds exactly three things: a root scope that owns the machine's
//! resources, a control log, and one domain whose capability table it fills by
//! hand. Everything else is created by that supervisor through the interface.
//!
//! The boot capability manifest is small and explicit: the supervisor's own
//! domain, the scope its children will be carved out of, the control log, the
//! assigned devices, and one sealed memory object per remaining boot module.
//!
//! The first supervisor has no supervisor of its own: its fault ends the run.

use vstd::prelude::*;

use crate::abi::{boot_slot, right};
use crate::api::memops::first_memory;
use crate::api::scopeops::first_scope;
use crate::api::{cap_install, collect_grant, grant_alloc};
use crate::bytes::{array_of, array_of_elements};
use crate::ctrl::{one_more, ControlLog, LogModel};
use crate::domain::{create_in, creation, CreateError, Created, PageLoad};
use crate::limits::{
    CPU_WINDOW_NS, MAX_CAPS, MAX_CONTROL_LOGS, MAX_DERIVE_DEPTH, MAX_DEVICES, MAX_DOMAINS,
    MAX_MEMORY_OBJECTS, MAX_OBJECT_PAGES, MAX_SCOPES, MAX_THREADS,
};
use crate::machine::blank_log;
use crate::memobj::{MemoryObject, State as MemState};
use crate::mm::{count_use, first_run, has_run, run_is_zero, Frame, FrameUse, Owner};
use crate::obj::{cap_at, ObjKind, ObjRef, NO_GRANT};
use crate::protocol::BootModule;
use crate::scope::{room_is_separate, Limits, Resource, Scope, State};
use crate::state::{ref_ok, Machine, MachineModel};

verus! {

/// Recovery budget the root scope keeps for closing obligations, per window.
pub const ROOT_CLOSURE_RESERVE_NS: u64 = 2_000_000;

/// Kernel objects the root scope may hold. Every table is smaller than this, so
/// the limit that binds is the table.
pub const ROOT_METADATA: u64 = 512;

/// Queue bytes the root scope may hold pending.
pub const ROOT_QUEUE_BYTES: u64 = 65536;

/// A label: the first sixteen bytes of a text, padded with zeros.
pub open spec fn padded(text: Seq<u8>) -> [u8; 16] {
    array_of(
        Seq::new(
            16,
            |i: int|
                if i < text.len() {
                    text[i]
                } else {
                    0u8
                },
        ),
    )
}

fn pad(text: &[u8]) -> (label: [u8; 16])
    ensures
        label == padded(text@),
{
    let mut label: [u8; 16] = [0; 16];
    let ghost whole = Seq::new(
        16,
        |i: int|
            if i < text@.len() {
                text@[i]
            } else {
                0u8
            },
    );
    for i in 0..16usize
        invariant
            whole.len() == 16,
            forall|k: int|
                0 <= k < 16 ==> #[trigger] whole[k] == if k < text@.len() {
                    text@[k]
                } else {
                    0u8
                },
            forall|k: int| 0 <= k < i ==> #[trigger] label@[k] == whole[k],
            forall|k: int| i <= k < 16 ==> #[trigger] label@[k] == 0u8,
    {
        if i < text.len() {
            label[i] = text[i];
        }
    }
    assert(label@ =~= whole);
    proof {
        array_of_elements(label);
    }
    label
}

/// `root`.
pub open spec fn root_label() -> Seq<u8> {
    seq![0x72u8, 0x6F, 0x6F, 0x74]
}

/// `system`.
pub open spec fn system_label() -> Seq<u8> {
    seq![0x73u8, 0x79, 0x73, 0x74, 0x65, 0x6D]
}

/// `supervisor`.
pub open spec fn supervisor_label() -> Seq<u8> {
    seq![0x73u8, 0x75, 0x70, 0x65, 0x72, 0x76, 0x69, 0x73, 0x6F, 0x72]
}

/// Ceilings of the root scope.
pub open spec fn root_limits(free: u64) -> Limits {
    Limits {
        memory_pages: free,
        metadata_objects: ROOT_METADATA,
        cpu_budget_ns: CPU_WINDOW_NS,
        queue_bytes: ROOT_QUEUE_BYTES,
        closure_reserve_ns: ROOT_CLOSURE_RESERVE_NS,
        parallelism: MAX_THREADS as u32,
    }
}

impl MachineModel {
    /// The machine once the root scope owns everything it has.
    pub open spec fn root_made(self) -> MachineModel {
        MachineModel { next_id: (self.next_id + 1) as u64, ..self }.with_scope(
            0,
            Scope {
                state: State::Open,
                id: self.next_id,
                parent: None,
                depth: 0,
                label: padded(root_label()),
                limits: root_limits(count_use(self.uses, FrameUse::Free) as u64),
                ..Scope::empty_spec(1)
            },
        )
    }
}

/// Creates the root scope that owns everything the machine has.
pub fn establish_root(machine: &mut Machine) -> (root: u16)
    requires
        old(machine).wf(),
        old(machine)@.next_id < u64::MAX,
        old(machine)@.scopes[0].state == State::Empty,
    ensures
        final(machine).wf(),
        final(machine).same_tables(*old(machine)),
        root == 0,
        final(machine)@ == old(machine)@.root_made(),
{
    let free: u64 = machine.available();
    let text: [u8; 4] = [0x72, 0x6F, 0x6F, 0x74];
    assert(text@ =~= root_label());
    let label = pad(&text);
    let id: u64 = match machine.take_id() {
        Some(id) => id,
        None => 0,
    };
    machine.put_scope(
        0,
        Scope {
            state: State::Open,
            id,
            parent: None,
            depth: 0,
            label,
            limits: Limits {
                memory_pages: free,
                metadata_objects: ROOT_METADATA,
                cpu_budget_ns: CPU_WINDOW_NS,
                queue_bytes: ROOT_QUEUE_BYTES,
                closure_reserve_ns: ROOT_CLOSURE_RESERVE_NS,
                parallelism: MAX_THREADS as u32,
            },
            ..Scope::empty(1)
        },
    );
    0
}

/// The first free log from `from` on, or [`MAX_CONTROL_LOGS`].
pub open spec fn first_log(logs: Seq<LogModel>, from: int) -> int
    decreases MAX_CONTROL_LOGS - from,
{
    if from >= MAX_CONTROL_LOGS {
        MAX_CONTROL_LOGS as int
    } else if !logs[from].used {
        from
    } else {
        first_log(logs, from + 1)
    }
}

impl MachineModel {
    /// A record of a new object fits on the account of `sponsor`.
    pub open spec fn can_claim(self, sponsor: u16) -> bool {
        self.affords(sponsor, Resource::Metadata, 1) && self.next_id < u64::MAX
    }

    /// The machine once the log in place `i` covers admissions.
    pub open spec fn log_established(self, sponsor: u16, i: int) -> MachineModel {
        MachineModel {
            system_log: Some(i as u16),
            ..self.claimed(sponsor).with_log(
                i,
                LogModel {
                    used: true,
                    generation: one_more(self.logs[i].generation),
                    id: self.next_id,
                    owner_scope: sponsor,
                    ..blank_log()
                },
            )
        }
    }
}

/// Charges for a record and takes its identity, or does neither.
fn claim(machine: &mut Machine, sponsor: u16) -> (id: Option<u64>)
    requires
        old(machine).wf(),
        sponsor < MAX_SCOPES,
    ensures
        final(machine).wf(),
        final(machine).same_tables(*old(machine)),
        if old(machine)@.can_claim(sponsor) {
            &&& id == Some(old(machine)@.next_id)
            &&& final(machine)@ == old(machine)@.claimed(sponsor)
        } else {
            &&& id is None
            &&& final(machine)@ == old(machine)@
        },
{
    if !machine.has_id() || !machine.charge(sponsor, Resource::Metadata, 1) {
        return None;
    }
    machine.take_id()
}

/// Creates the system control log the kernel writes its receipts to.
pub fn establish_control_log(machine: &mut Machine, sponsor: u16) -> (log: Option<u16>)
    requires
        old(machine).wf(),
        sponsor < MAX_SCOPES,
    ensures
        final(machine).wf(),
        final(machine).same_tables(*old(machine)),
        ({
            let i = first_log(old(machine)@.logs, 0);
            if i < MAX_CONTROL_LOGS && old(machine)@.can_claim(sponsor) {
                &&& log == Some(i as u16)
                &&& final(machine)@ == old(machine)@.log_established(sponsor, i)
            } else {
                &&& log is None
                &&& final(machine)@ == old(machine)@
            }
        }),
{
    let mut i: usize = 0;
    while i < MAX_CONTROL_LOGS && machine.log(i).used
        invariant
            machine.wf(),
            i <= MAX_CONTROL_LOGS,
            first_log(machine@.logs, 0) == first_log(machine@.logs, i as int),
        decreases MAX_CONTROL_LOGS - i,
    {
        i += 1;
    }
    if i == MAX_CONTROL_LOGS {
        return None;
    }
    let id: u64 = match claim(machine, sponsor) {
        None => {
            return None;
        },
        Some(id) => id,
    };
    let generation: u32 = machine.log(i).generation.saturating_add(1);
    let mut log = ControlLog::empty();
    let ghost blank = log;
    assert(blank@ =~= blank_log());
    log.used = true;
    log.generation = generation;
    log.id = id;
    log.owner_scope = sponsor;
    assert(log.live() =~= blank.live());
    machine.put_log(i, log);
    machine.set_system_log(i);
    Some(i as u16)
}

impl MachineModel {
    /// The machine with a child scope of `parent`, and its place; nothing when
    /// there is no room for one.
    pub open spec fn child_made(self, parent: u16, label: Seq<u8>, limits: Limits) -> Option<
        (MachineModel, u16),
    > {
        let i = first_scope(self.scopes, 0);
        let p = parent as int;
        if i < MAX_SCOPES && self.can_claim(parent) {
            let paid = self.claimed(parent);
            Some(
                (
                    paid.with_scope(
                        p,
                        Scope { children: one_more(paid.scopes[p].children), ..paid.scopes[p] },
                    ).with_scope(
                        i,
                        Scope {
                            state: State::Open,
                            id: self.next_id,
                            parent: Some(parent),
                            depth: (self.scopes[p].depth + 1) as u32,
                            label: padded(label),
                            limits,
                            ..Scope::empty_spec(one_more(self.scopes[i].generation))
                        },
                    ),
                    i as u16,
                ),
            )
        } else {
            None
        }
    }
}

/// Creates a child scope from kernel context.
fn child_scope(machine: &mut Machine, parent: u16, label: &[u8], limits: Limits) -> (child: Option<
    u16,
>)
    requires
        old(machine).wf(),
        parent < MAX_SCOPES,
        old(machine)@.scopes[parent as int].state != State::Empty,
    ensures
        final(machine).wf(),
        final(machine).same_tables(*old(machine)),
        match old(machine)@.child_made(parent, label@, limits) {
            Some((m, i)) => child == Some(i) && final(machine)@ == m && i < MAX_SCOPES,
            None => child is None && final(machine)@ == old(machine)@,
        },
        child matches Some(i) ==> {
            &&& final(machine)@.scopes[i as int].state == State::Open
            &&& final(machine)@.scopes[i as int].depth == old(
                machine,
            )@.scopes[parent as int].depth + 1
        },
{
    let mut i: usize = 0;
    while i < MAX_SCOPES && machine.scope(i).state != State::Empty
        invariant
            machine.wf(),
            i <= MAX_SCOPES,
            first_scope(machine@.scopes, 0) == first_scope(machine@.scopes, i as int),
        decreases MAX_SCOPES - i,
    {
        i += 1;
    }
    if i == MAX_SCOPES {
        return None;
    }
    let id: u64 = match claim(machine, parent) {
        None => {
            return None;
        },
        Some(id) => id,
    };
    proof {
        old(machine).wf_scopes();
        machine.wf_scopes();
        crate::scope::charged_keeps_tree(
            old(machine)@.scopes,
            parent as int,
            Resource::Metadata,
            1,
        );
    }
    let generation: u32 = machine.scope(i).generation.saturating_add(1);
    let above = machine.scope(parent as usize);
    proof {
        crate::scope::depth_is_bounded(machine@.scopes, parent as int);
    }
    let depth: u32 = above.depth + 1;
    machine.set_scope(
        parent as usize,
        Scope { children: above.children.saturating_add(1), ..above },
    );
    let label16 = pad(label);
    machine.put_scope(
        i,
        Scope {
            state: State::Open,
            id,
            parent: Some(parent),
            depth,
            label: label16,
            limits,
            ..Scope::empty(generation)
        },
    );
    proof {
        machine.wf_scopes();
    }
    Some(i as u16)
}

/// Significant bytes of a module name.
pub open spec fn name_length(name: Seq<u8>, from: int) -> int
    decreases name.len() - from,
{
    if from >= name.len() || from < 0 {
        name.len() as int
    } else if name[from] == 0 {
        from
    } else {
        name_length(name, from + 1)
    }
}

/// Name of a module, for diagnostic records.
pub fn module_name(module: &BootModule) -> (name: Vec<u8>)
    ensures
        name@ == module.name@.take(name_length(module.name@, 0)),
{
    let mut name: Vec<u8> = Vec::new();
    let mut i: usize = 0;
    while i < 32 && module.name[i] != 0
        invariant
            i <= 32,
            name@ == module.name@.take(i as int),
            name_length(module.name@, 0) == name_length(module.name@, i as int),
        decreases 32 - i,
    {
        name.push(module.name[i]);
        i += 1;
        assert(name@ =~= module.name@.take(i as int));
    }
    name
}

/// What may ever be done to the pages of a boot image.
pub open spec fn image_ceiling() -> u32 {
    right::MEMORY_READ | right::MEMORY_EXECUTE | right::MEMORY_MAP
}

/// Pages of a module.
pub open spec fn module_pages(length: u64) -> int {
    (length + 0xFFF) / 0x1000
}

impl MachineModel {
    /// A memory object for a module fits.
    pub open spec fn can_hold(self, sponsor: u16, length: u64) -> bool {
        let pages = module_pages(length);
        &&& 0 < pages <= MAX_OBJECT_PAGES
        &&& first_memory(self.memories, 0) < MAX_MEMORY_OBJECTS
        &&& self.can_claim(sponsor)
        &&& self.affords(sponsor, Resource::MemoryPages, pages)
        &&& has_run(self.uses, pages)
    }

    /// The machine with a sealed memory object for a module.
    pub open spec fn image_made(self, sponsor: u16, module: BootModule) -> MachineModel {
        let pages = module_pages(module.length);
        let i = first_memory(self.memories, 0);
        let base = first_run(self.uses, pages);
        self.frames_taken(base, pages as u64, Owner::Scope(sponsor)).claimed(sponsor).charge(
            sponsor,
            Resource::MemoryPages,
            pages as u64,
        ).with_memory(
            i,
            MemoryObject {
                state: MemState::Sealed,
                generation: one_more(self.memories[i].generation),
                id: self.next_id,
                base: Frame { number: base as u64 },
                pages: pages as u32,
                max_rights: image_ceiling(),
                sponsor,
                label: padded(module.name@.take(name_length(module.name@, 0))),
                ..MemoryObject::empty_spec()
            },
        )
    }
}

/// Bytes of a module to copy before anything runs.
#[derive(Clone, Copy, Debug, PartialEq, Eq, Structural)]
pub struct ImageLoad {
    /// Where they are.
    pub phys_base: u64,
    /// How many there are.
    pub length: u64,
    /// First frame they go to.
    pub frame: Frame,
}

/// Gives a boot module a memory object of its own, sealed.
///
/// The object is memory the kernel allocated and charged. Its only writer is
/// the copy of the module, which is made before anything runs.
fn image_object(machine: &mut Machine, sponsor: u16, module: &BootModule) -> (made: Option<
    (usize, u32, ImageLoad),
>)
    requires
        old(machine).wf(),
        sponsor < MAX_SCOPES,
    ensures
        final(machine).wf(),
        final(machine).kernel_as(*old(machine)),
        if old(machine)@.can_hold(sponsor, module.length) {
            let i = first_memory(old(machine)@.memories, 0);
            &&& made == Some(
                (
                    i as usize,
                    one_more(old(machine)@.memories[i].generation),
                    image_load(old(machine)@, *module),
                ),
            )
            &&& final(machine)@ == old(machine)@.image_made(sponsor, *module)
            &&& run_is_zero(
                final(machine).frames,
                first_run(old(machine)@.uses, module_pages(module.length)),
                module_pages(module.length),
            )
        } else {
            &&& made is None
            &&& final(machine)@ == old(machine)@
        },
        made matches Some((i, _, _)) ==> i < MAX_MEMORY_OBJECTS && i == first_memory(
            old(machine)@.memories,
            0,
        ),
{
    if module.length == 0 || module.length > MAX_OBJECT_PAGES * 0x1000 {
        return None;
    }
    let pages: u64 = (module.length + 0xFFF) / 0x1000;
    let mut i: usize = 0;
    while i < MAX_MEMORY_OBJECTS && machine.memory(i).state != MemState::Empty
        invariant
            machine.wf(),
            i <= MAX_MEMORY_OBJECTS,
            first_memory(machine@.memories, 0) == first_memory(machine@.memories, i as int),
        decreases MAX_MEMORY_OBJECTS - i,
    {
        i += 1;
    }
    if i == MAX_MEMORY_OBJECTS || !machine.affords(sponsor, Resource::MemoryPages, pages)
        || !machine.affords(sponsor, Resource::Metadata, 1) || !machine.has_id() {
        return None;
    }
    let base = match machine.take_frames(pages, Owner::Scope(sponsor)) {
        None => {
            return None;
        },
        Some(base) => base,
    };
    let ghost taken = *machine;
    proof {
        old(machine).wf_scopes();
        room_is_separate(
            old(machine)@.scopes,
            sponsor as int,
            Resource::MemoryPages,
            pages as int,
            sponsor as int,
            Resource::Metadata,
            1,
        );
    }
    let id: u64 = match claim(machine, sponsor) {
        None => {
            proof {
                machine.kernel_goes_on(taken, *old(machine));
            }
            return None;
        },
        Some(id) => id,
    };
    machine.charge(sponsor, Resource::MemoryPages, pages);
    let generation: u32 = machine.memory(i).generation.saturating_add(1);
    proof {
        machine.wf_sized();
        machine.wf_stands();
        machine@.backing().uncounted_is_unmapped(i as int);
    }
    let name = module_name(module);
    let label = pad(name.as_slice());
    machine.set_memory(
        i,
        MemoryObject {
            state: MemState::Sealed,
            generation,
            id,
            base,
            pages: pages as u32,
            max_rights: right::MEMORY_READ | right::MEMORY_EXECUTE | right::MEMORY_MAP,
            sponsor,
            label,
            ..MemoryObject::empty()
        },
    );
    proof {
        machine.kernel_goes_on(taken, *old(machine));
    }
    Some(
        (
            i,
            generation,
            ImageLoad { phys_base: module.phys_base, length: module.length, frame: base },
        ),
    )
}

/// The bytes of a module to copy, and where.
pub open spec fn image_load(m: MachineModel, module: BootModule) -> ImageLoad {
    ImageLoad {
        phys_base: module.phys_base,
        length: module.length,
        frame: Frame { number: first_run(m.uses, module_pages(module.length)) as u64 },
    }
}

impl MachineModel {
    /// The machine once a boot capability has been put in a slot of a domain's
    /// table, and its handle; no handle when it does not fit.
    pub open spec fn given(
        self,
        d: int,
        slot: u32,
        object: ObjRef,
        rights: u32,
        sponsor: u16,
    ) -> (MachineModel, Option<u64>) {
        if !self.can_grant(sponsor, NO_GRANT) {
            (self, None)
        } else {
            let grant = self.next_grant() as u16;
            let made = self.granted(sponsor, NO_GRANT, object, rights, 0, None, 0);
            if made.can_install(d, Some(slot as usize)) {
                (
                    made.install(d, slot as int, object, grant),
                    Some(made.fresh_handle(d, slot as int)),
                )
            } else {
                (made.collect_grant(grant, MAX_DERIVE_DEPTH as nat), None)
            }
        }
    }
}

/// Installs one boot capability in a domain's table.
fn install(
    machine: &mut Machine,
    domain: usize,
    slot: u32,
    object: ObjRef,
    rights: u32,
    sponsor: u16,
) -> (handle: Option<u64>)
    requires
        old(machine).wf(),
        domain < MAX_DOMAINS,
        sponsor < MAX_SCOPES,
        ref_ok(object),
    ensures
        final(machine).wf(),
        final(machine).same_tables(*old(machine)),
        (final(machine)@, handle) == old(machine)@.given(
            domain as int,
            slot,
            object,
            rights,
            sponsor,
        ),
        handle is Some ==> slot < MAX_CAPS,
{
    let grant: u16 = match grant_alloc(machine, sponsor, NO_GRANT, object, rights, 0, None, 0) {
        None => {
            return None;
        },
        Some(grant) => grant,
    };
    let handle = cap_install(machine, domain, object, grant, Some(slot as usize));
    if handle.is_none() {
        collect_grant(machine, grant);
    }
    handle
}

impl MachineModel {
    /// The machine once a supervisor holds its own domain, the scope of its
    /// children and the control log, and whether all three fitted.
    pub open spec fn manifest(self, d: int, system: u16, own: u16) -> (MachineModel, bool) {
        let (a, first) = self.given(
            d,
            boot_slot::SELF_DOMAIN,
            ObjRef {
                kind: ObjKind::Domain,
                index: d as u16,
                generation: self.domains[d].generation,
            },
            ObjKind::Domain.mask_spec(),
            own,
        );
        if first is None {
            (a, false)
        } else {
            let (b, second) = a.given(
                d,
                boot_slot::SELF_SCOPE,
                ObjRef {
                    kind: ObjKind::Scope,
                    index: system,
                    generation: a.scopes[system as int].generation,
                },
                ObjKind::Scope.mask_spec(),
                own,
            );
            if second is None || b.system_log is None {
                (b, false)
            } else {
                let l = b.system_log->0;
                let (c, third) = b.given(
                    d,
                    boot_slot::CONTROL_LOG,
                    ObjRef {
                        kind: ObjKind::ControlLog,
                        index: l,
                        generation: b.logs[l as int].generation,
                    },
                    ObjKind::ControlLog.mask_spec(),
                    own,
                );
                (c, third is Some)
            }
        }
    }

    /// The machine once a supervisor holds the devices among the first `n`, and
    /// how many it holds. They go to fixed slots, as far as those reach.
    pub open spec fn devices_given(self, d: int, system: u16, n: nat) -> (MachineModel, u32)
        decreases n,
    {
        if n == 0 {
            (self, 0)
        } else {
            let (m, count) = self.devices_given(d, system, (n - 1) as nat);
            let device = m.devices[n - 1];
            let slot = (boot_slot::FIRST_DEVICE + count) as u32;
            if !device.used || slot >= boot_slot::FIRST_MODULE {
                (m, count)
            } else {
                let (next, handle) = m.given(
                    d,
                    slot,
                    ObjRef {
                        kind: ObjKind::Device,
                        index: (n - 1) as u16,
                        generation: device.generation,
                    },
                    ObjKind::Device.mask_spec(),
                    system,
                );
                (
                    next,
                    if handle is Some {
                        (count + 1) as u32
                    } else {
                        count
                    },
                )
            }
        }
    }

    /// The machine once a supervisor holds a sealed memory object for each of
    /// the first `n` modules that fits, how many it holds, and the bytes to
    /// copy.
    pub open spec fn images_given(
        self,
        d: int,
        system: u16,
        modules: Seq<BootModule>,
        n: nat,
    ) -> (MachineModel, u32, Seq<ImageLoad>)
        decreases n,
    {
        if n == 0 {
            (self, 0, Seq::empty())
        } else {
            let (m, count, loads) = self.images_given(d, system, modules, (n - 1) as nat);
            let module = modules[n - 1];
            if !m.can_hold(system, module.length) {
                (m, count, loads)
            } else {
                let i = first_memory(m.memories, 0);
                let (next, handle) = m.image_made(system, module).given(
                    d,
                    (boot_slot::FIRST_MODULE + count) as u32,
                    ObjRef {
                        kind: ObjKind::Memory,
                        index: i as u16,
                        generation: one_more(m.memories[i].generation),
                    },
                    image_rights(),
                    system,
                );
                (
                    next,
                    if handle is Some {
                        (count + 1) as u32
                    } else {
                        count
                    },
                    loads.push(image_load(m, module)),
                )
            }
        }
    }

    /// The machine with the scope of everything the supervisor will create and
    /// the scope of the supervisor itself; no scopes when they do not fit.
    pub open spec fn perimeters(self, root: u16) -> (MachineModel, Option<(u16, u16)>) {
        let free = count_use(self.uses, FrameUse::Free) as u64;
        let held = self.scopes[root as int].limits.memory_pages;
        let pages = if free < held {
            free
        } else {
            held
        };
        match self.child_made(root, system_label(), system_limits(pages)) {
            None => (self, None),
            Some((m, system)) => match m.child_made(
                system,
                supervisor_label(),
                supervisor_limits(),
            ) {
                None => (m, None),
                Some((both, own)) => (both, Some((system, own))),
            },
        }
    }
}

/// Rights a supervisor gets on a boot image.
pub open spec fn image_rights() -> u32 {
    right::INSPECT | right::DERIVE | right::TRANSFER | right::MEMORY_READ | right::MEMORY_EXECUTE
        | right::MEMORY_MAP
}

/// Ceilings of the scope of everything the supervisor will create.
pub open spec fn system_limits(pages: u64) -> Limits {
    Limits { metadata_objects: 504, ..root_limits(pages) }
}

/// Ceilings of the scope of the supervisor itself.
pub open spec fn supervisor_limits() -> Limits {
    Limits {
        memory_pages: 256,
        metadata_objects: 128,
        cpu_budget_ns: 50_000_000,
        queue_bytes: 16384,
        closure_reserve_ns: 1_000_000,
        parallelism: 4,
    }
}

/// The first supervisor, and what is to be copied before it may be activated.
pub struct Supervisor {
    /// Its domain.
    pub index: usize,
    /// Its own scope.
    pub own: u16,
    /// The scope of everything it will create.
    pub system: u16,
    /// Devices it holds.
    pub devices: u32,
    /// Boot images it holds.
    pub images: u32,
    /// Bytes of its own image.
    pub loads: Vec<PageLoad>,
    /// Bytes of the boot images.
    pub copies: Vec<ImageLoad>,
}

/// What building a supervisor leaves once its domain stands in `m`.
pub open spec fn equipped(
    m: MachineModel,
    made: Created,
    system: u16,
    own: u16,
    modules: Seq<BootModule>,
    after: MachineModel,
    result: Option<Supervisor>,
) -> bool {
    let d = made.index as int;
    let (listed, whole) = m.manifest(d, system, own);
    if !whole {
        result is None && after == listed
    } else {
        let (driven, devices) = listed.devices_given(d, system, MAX_DEVICES as nat);
        let (stocked, images, copies) = driven.images_given(d, system, modules, modules.len());
        &&& after == stocked
        &&& result matches Some(s) && {
            &&& s.index == made.index
            &&& s.own == own
            &&& s.system == system
            &&& s.devices == devices
            &&& s.images == images
            &&& s.loads@ == made.loads@
            &&& s.copies@ == copies
        }
    }
}

/// What building a supervisor leaves once its scopes stand in `mid`: `made` is
/// what creating its domain came to, and `after` the machine then.
pub open spec fn supervised(
    mid: Machine,
    after: Machine,
    made: Result<Created, CreateError>,
    image: Seq<u8>,
    modules: Seq<BootModule>,
    system: u16,
    own: u16,
    end: MachineModel,
    result: Option<Supervisor>,
) -> bool {
    &&& creation(mid, supervisor_label(), image, own, false, None, after, made)
    &&& match made {
        Err(_) => result is None && end == after@,
        Ok(domain) => equipped(after@, domain, system, own, modules, end, result),
    }
}

fn give_manifest(machine: &mut Machine, d: usize, system: u16, own: u16) -> (whole: bool)
    requires
        old(machine).wf(),
        d < MAX_DOMAINS,
        system < MAX_SCOPES,
        own < MAX_SCOPES,
    ensures
        final(machine).wf(),
        final(machine).same_tables(*old(machine)),
        (final(machine)@, whole) == old(machine)@.manifest(d as int, system, own),
{
    let generation: u32 = machine.domain(d).generation;
    if install(
        machine,
        d,
        boot_slot::SELF_DOMAIN,
        ObjRef { kind: ObjKind::Domain, index: d as u16, generation },
        ObjKind::Domain.rights_mask(),
        own,
    ).is_none() {
        return false;
    }
    let scope_generation: u32 = machine.scope(system as usize).generation;
    if install(
        machine,
        d,
        boot_slot::SELF_SCOPE,
        ObjRef { kind: ObjKind::Scope, index: system, generation: scope_generation },
        ObjKind::Scope.rights_mask(),
        own,
    ).is_none() {
        return false;
    }
    let l: u16 = match machine.get_system_log() {
        None => {
            return false;
        },
        Some(l) => l,
    };
    let log_generation: u32 = machine.log(l as usize).generation;
    install(
        machine,
        d,
        boot_slot::CONTROL_LOG,
        ObjRef { kind: ObjKind::ControlLog, index: l, generation: log_generation },
        ObjKind::ControlLog.rights_mask(),
        own,
    ).is_some()
}

fn give_devices(machine: &mut Machine, d: usize, system: u16) -> (devices: u32)
    requires
        old(machine).wf(),
        d < MAX_DOMAINS,
        system < MAX_SCOPES,
    ensures
        final(machine).wf(),
        final(machine).same_tables(*old(machine)),
        (final(machine)@, devices) == old(machine)@.devices_given(
            d as int,
            system,
            MAX_DEVICES as nat,
        ),
{
    let mut devices: u32 = 0;
    for i in 0..MAX_DEVICES
        invariant
            machine.wf(),
            machine.same_tables(*old(machine)),
            d < MAX_DOMAINS,
            system < MAX_SCOPES,
            devices <= i,
            (machine@, devices) == old(machine)@.devices_given(d as int, system, i as nat),
    {
        let device = machine.device(i);
        let slot: u32 = boot_slot::FIRST_DEVICE + devices;
        if device.used && slot < boot_slot::FIRST_MODULE {
            let handle = install(
                machine,
                d,
                slot,
                ObjRef {
                    kind: ObjKind::Device,
                    index: i as u16,
                    generation: device.generation,
                },
                ObjKind::Device.rights_mask(),
                system,
            );
            if handle.is_some() {
                devices += 1;
            }
        }
    }
    devices
}

fn give_images(machine: &mut Machine, d: usize, system: u16, modules: &Vec<BootModule>) -> (given: (
    u32,
    Vec<ImageLoad>,
))
    requires
        old(machine).wf(),
        d < MAX_DOMAINS,
        system < MAX_SCOPES,
    ensures
        final(machine).wf(),
        (final(machine)@, given.0, given.1@) == old(machine)@.images_given(
            d as int,
            system,
            modules@,
            modules@.len(),
        ),
{
    let mut images: u32 = 0;
    let mut copies: Vec<ImageLoad> = Vec::new();
    for k in 0..modules.len()
        invariant
            machine.wf(),
            d < MAX_DOMAINS,
            system < MAX_SCOPES,
            images <= MAX_CAPS,
            (machine@, images, copies@) == old(machine)@.images_given(
                d as int,
                system,
                modules@,
                k as nat,
            ),
    {
        let module = modules[k];
        let ghost m = machine@;
        match image_object(machine, system, &module) {
            None => {},
            Some((index, generation, load)) => {
                copies.push(load);
                let handle = install(
                    machine,
                    d,
                    boot_slot::FIRST_MODULE + images,
                    ObjRef { kind: ObjKind::Memory, index: index as u16, generation },
                    right::INSPECT | right::DERIVE | right::TRANSFER | right::MEMORY_READ
                        | right::MEMORY_EXECUTE | right::MEMORY_MAP,
                    system,
                );
                if handle.is_some() {
                    images += 1;
                }
            },
        }
    }
    (images, copies)
}

/// Creates the scope of everything the supervisor will create and the scope of
/// the supervisor itself.
fn make_perimeters(machine: &mut Machine, root: u16) -> (scopes: Option<(u16, u16)>)
    requires
        old(machine).wf(),
        root < MAX_SCOPES,
        old(machine)@.scopes[root as int].state != State::Empty,
    ensures
        final(machine).wf(),
        final(machine).same_tables(*old(machine)),
        (final(machine)@, scopes) == old(machine)@.perimeters(root),
        scopes matches Some((system, own)) ==> system < MAX_SCOPES && own < MAX_SCOPES,
{
    let free: u64 = machine.available();
    let held: u64 = machine.scope(root as usize).limits.memory_pages;
    let system_text: [u8; 6] = [0x73, 0x79, 0x73, 0x74, 0x65, 0x6D];
    let own_text: [u8; 10] = [0x73, 0x75, 0x70, 0x65, 0x72, 0x76, 0x69, 0x73, 0x6F, 0x72];
    assert(system_text@ =~= system_label());
    assert(own_text@ =~= supervisor_label());
    let system: u16 = match child_scope(
        machine,
        root,
        &system_text,
        Limits {
            memory_pages: if free < held {
                free
            } else {
                held
            },
            metadata_objects: ROOT_METADATA - 8,
            cpu_budget_ns: CPU_WINDOW_NS,
            queue_bytes: ROOT_QUEUE_BYTES,
            closure_reserve_ns: ROOT_CLOSURE_RESERVE_NS,
            parallelism: MAX_THREADS as u32,
        },
    ) {
        None => {
            return None;
        },
        Some(system) => system,
    };
    let own: u16 = match child_scope(
        machine,
        system,
        &own_text,
        Limits {
            memory_pages: 256,
            metadata_objects: 128,
            cpu_budget_ns: CPU_WINDOW_NS / 2,
            queue_bytes: 16384,
            closure_reserve_ns: ROOT_CLOSURE_RESERVE_NS / 2,
            parallelism: 4,
        },
    ) {
        None => {
            return None;
        },
        Some(own) => own,
    };
    Some((system, own))
}

/// Builds the domain of the supervisor and fills its table.
fn outfit(
    machine: &mut Machine,
    system: u16,
    own: u16,
    image: &[u8],
    modules: &Vec<BootModule>,
) -> (result: Option<Supervisor>)
    requires
        old(machine).wf(),
        old(machine)@.kernel_space is Some,
        system < MAX_SCOPES,
        own < MAX_SCOPES,
        image@.len() <= usize::MAX,
    ensures
        final(machine).wf(),
        exists|after: Machine, made: Result<Created, CreateError>| #[trigger]
            supervised(
                *old(machine),
                after,
                made,
                image@,
                modules@,
                system,
                own,
                final(machine)@,
                result,
            ),
{
    let own_text: [u8; 10] = [0x73, 0x75, 0x70, 0x65, 0x72, 0x76, 0x69, 0x73, 0x6F, 0x72];
    assert(own_text@ =~= supervisor_label());
    let ghost mid = *machine;
    let made = create_in(machine, &own_text, image, own, false, None);
    let ghost after = *machine;
    let ghost answer = made;
    assert(creation(mid, supervisor_label(), image@, own, false, None, after, answer));
    let domain = match made {
        Err(_) => {
            assert(supervised(
                mid,
                after,
                answer,
                image@,
                modules@,
                system,
                own,
                machine@,
                None,
            ));
            return None;
        },
        Ok(domain) => domain,
    };
    let index: usize = domain.index;
    if !give_manifest(machine, index, system, own) {
        assert(supervised(mid, after, answer, image@, modules@, system, own, machine@, None));
        return None;
    }
    let devices: u32 = give_devices(machine, index, system);
    let (images, copies) = give_images(machine, index, system, modules);
    let result = Some(
        Supervisor { index, own, system, devices, images, loads: domain.loads, copies },
    );
    assert(supervised(mid, after, answer, image@, modules@, system, own, machine@, result));
    result
}

/// Builds the first supervisor and hands it its boot capabilities.
///
/// Returns `None` if the manifest could not be assembled. The supervisor's
/// domain is not activated here, so nothing partial runs.
pub fn establish_supervisor(
    machine: &mut Machine,
    root: u16,
    image: &[u8],
    modules: &Vec<BootModule>,
) -> (result: Option<Supervisor>)
    requires
        old(machine).wf(),
        old(machine)@.kernel_space is Some,
        root < MAX_SCOPES,
        old(machine)@.scopes[root as int].state != State::Empty,
        image@.len() <= usize::MAX,
    ensures
        final(machine).wf(),
        match old(machine)@.perimeters(root) {
            (m, None) => result is None && final(machine)@ == m,
            (m, Some((system, own))) => exists|
                mid: Machine,
                after: Machine,
                made: Result<Created, CreateError>,
            |
                mid@ == m && mid.same_tables(*old(machine)) && #[trigger] supervised(
                    mid,
                    after,
                    made,
                    image@,
                    modules@,
                    system,
                    own,
                    final(machine)@,
                    result,
                ),
        },
{
    let (system, own) = match make_perimeters(machine, root) {
        None => {
            return None;
        },
        Some(scopes) => scopes,
    };
    outfit(machine, system, own, image, modules)
}

/// A boot capability that was given stands in its slot and names its object.
pub proof fn given_capability_is_in_its_slot(
    m: MachineModel,
    d: int,
    slot: u32,
    object: ObjRef,
    rights: u32,
    sponsor: u16,
)
    requires
        m.wf(),
        0 <= d < MAX_DOMAINS,
        ref_ok(object),
        m.given(d, slot, object, rights, sponsor).1 is Some,
    ensures
        ({
            let after = m.given(d, slot, object, rights, sponsor).0;
            let entry = after.caps[cap_at(d, slot as int)];
            &&& slot < MAX_CAPS
            &&& entry.live
            &&& entry.object == object
            &&& entry.grant == m.next_grant() as u16
        }),
{
    let made = m.granted(sponsor, NO_GRANT, object, rights, 0, None, 0);
    assert(made.caps == m.caps);
    assert(cap_at(d, slot as int) < m.caps.len());
}

} // verus!
