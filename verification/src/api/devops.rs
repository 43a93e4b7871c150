//! Device operations: register windows, one interrupt, DMA grants, and the
//! session that ends them all at once.
//!
//! Every operation but the query and the reset names the session the caller
//! believes the device is in, and a mismatch is a refusal: a reset invalidates
//! everything made under the session before it.

use vstd::prelude::*;

use crate::abi::request::{
    DeviceInfo, DeviceIrqRequest, DeviceMapRequest, DeviceRegion, DmaGrantInfo, DmaMapRequest,
    DmaUnmapRequest,
};
use crate::abi::status::Status;
use crate::abi::{object_type, right};
use crate::api::calls::caller_ok;
use crate::api::memops::unmapping_keeps_tables;
use crate::api::{ctx_ok, resolve, Ctx, Resolved};
use crate::arch::x86_64::paging::MapError;
use crate::backing::covers;
use crate::bytes::{array_of, array_of_elements};
use crate::ctrl::{one_less, one_more};
use crate::device::{
    is_device_vector, Device, DmaGrant, IrqBinding, MapRecord, Region, State, DEVICE_VECTOR_BASE,
    DEVICE_VECTOR_COUNT,
};
use crate::limits::{
    MAX_DEVICES, MAX_DEVICE_MAPS, MAX_DEVICE_REGIONS, MAX_DMA_GRANTS, MAX_DOMAINS, MAX_IRQ_BINDINGS,
};
use crate::memobj::{MemoryObject, State as MemState};
use crate::mm::{Frame, Owner, Rights};
use crate::obj::ObjKind;
use crate::scope::{self, release_undoes_reserve, Resource};
use crate::spaces::{tables_grew, with_run, USER_END};
use crate::state::{device_map_ok, Domain, DomainState, Machine, MachineModel};

verus! {

/// Physical base of the address space a message-signalled interrupt writes to.
pub const INTERRUPT_ADDRESS_BASE: u64 = 0xFEE0_0000;

/// Lowest address a domain may map.
pub const USER_START: u64 = 0x1000;

/// A window as it is reported.
pub open spec fn reported_region(region: Region) -> DeviceRegion {
    DeviceRegion {
        kind: region.kind,
        bar: region.bar as u32,
        offset: region.offset,
        length: region.length,
        flags: if region.maps != 0 {
            1
        } else {
            0
        },
        notify_off_multiplier: region.notify_off_multiplier,
    }
}

/// A window that is not there, as it is reported.
pub open spec fn no_region() -> DeviceRegion {
    DeviceRegion {
        kind: 0,
        bar: 0,
        offset: 0,
        length: 0,
        flags: 0,
        notify_off_multiplier: 0,
    }
}

/// Interrupt bindings of a device among the first `n`.
pub open spec fn bound_irqs(irqs: Seq<IrqBinding>, device: int, n: int) -> nat
    decreases n,
{
    if n <= 0 {
        0
    } else if irqs[n - 1].used && irqs[n - 1].device == device {
        bound_irqs(irqs, device, n - 1) + 1
    } else {
        bound_irqs(irqs, device, n - 1)
    }
}

/// DMA grants of a device among the first `n`.
pub open spec fn held_grants(grants: Seq<DmaGrant>, device: int, n: int) -> nat
    decreases n,
{
    if n <= 0 {
        0
    } else if grants[n - 1].used && grants[n - 1].device == device {
        held_grants(grants, device, n - 1) + 1
    } else {
        held_grants(grants, device, n - 1)
    }
}

/// One or zero.
pub open spec fn bit(yes: bool) -> u32 {
    if yes {
        1
    } else {
        0
    }
}

fn as_bit(yes: bool) -> (number: u32)
    ensures
        number == bit(yes),
{
    if yes {
        1
    } else {
        0
    }
}

impl MachineModel {
    /// State of a device.
    pub open spec fn device_info(self, i: int) -> DeviceInfo {
        let device = self.devices[i];
        DeviceInfo {
            state: device.state.abi_spec(),
            session: device.session,
            bdf: device.bdf,
            vendor_id: device.vendor as u32,
            device_id: device.device_id as u32,
            class_code: device.class,
            region_count: device.region_count as u32,
            irq_bound: bound_irqs(self.irqs, i, MAX_IRQ_BINDINGS as int) as u32,
            dma_grants: held_grants(self.dma_grants, i, MAX_DMA_GRANTS as int) as u32,
            dma_profile: device.profile_spec(self.iommu_described, self.iommu_translating).0,
            iommu_described: bit(self.iommu_described),
            iommu_translating: bit(self.iommu_translating),
            access_platform: bit(device.access_platform),
            bus_master: bit(device.bus_master),
            dma_address_bits: device.dma_address_bits,
            isolation_group: device.isolation_group,
            group_members: device.group_members,
            object_id: device.id,
            sponsor_scope_id: self.scopes[device.sponsor as int].id,
            label: device.label,
            regions: array_of(
                Seq::new(
                    MAX_DEVICE_REGIONS as nat,
                    |k: int|
                        if k < device.region_count {
                            reported_region(device.regions@[k])
                        } else {
                            no_region()
                        },
                ),
            ),
        }
    }

    /// The session is the one the device is in.
    pub open spec fn is_session(self, i: int, session: u32) -> bool {
        session != 0 && self.devices[i].session == session
    }
}

/// Builds the descriptor for one device.
fn describe(machine: &Machine, i: usize) -> (info: DeviceInfo)
    requires
        machine.wf(),
        i < MAX_DEVICES,
    ensures
        info == machine@.device_info(i as int),
{
    let device = machine.device(i);
    let (profile, _) = device.profile(machine.iommu_described, machine.iommu_translating);
    let blank = DeviceRegion {
        kind: 0,
        bar: 0,
        offset: 0,
        length: 0,
        flags: 0,
        notify_off_multiplier: 0,
    };
    let mut regions: [DeviceRegion; MAX_DEVICE_REGIONS] = [blank; MAX_DEVICE_REGIONS];
    for k in 0..device.region_count
        invariant
            device.region_count <= MAX_DEVICE_REGIONS,
            forall|j: int|
                0 <= j < MAX_DEVICE_REGIONS ==> #[trigger] regions@[j] == if j < k {
                    reported_region(device.regions@[j])
                } else {
                    no_region()
                },
    {
        let region = device.regions[k];
        regions[k] = DeviceRegion {
            kind: region.kind,
            bar: region.bar as u32,
            offset: region.offset,
            length: region.length,
            flags: as_bit(region.maps != 0),
            notify_off_multiplier: region.notify_off_multiplier,
        };
    }
    proof {
        assert(regions@ =~= Seq::new(
            MAX_DEVICE_REGIONS as nat,
            |k: int|
                if k < device.region_count {
                    reported_region(device.regions@[k])
                } else {
                    no_region()
                },
        ));
        array_of_elements(regions);
    }
    let mut irqs: u32 = 0;
    for k in 0..MAX_IRQ_BINDINGS
        invariant
            machine.wf(),
            irqs <= k,
            irqs == bound_irqs(machine@.irqs, i as int, k as int),
    {
        let binding = machine.irq(k);
        if binding.used && binding.device as usize == i {
            irqs += 1;
        }
    }
    let mut grants: u32 = 0;
    for k in 0..MAX_DMA_GRANTS
        invariant
            machine.wf(),
            grants <= k,
            grants == held_grants(machine@.dma_grants, i as int, k as int),
    {
        let grant = machine.dma_grant(k);
        if grant.used && grant.device as usize == i {
            grants += 1;
        }
    }
    DeviceInfo {
        state: device.state.abi(),
        session: device.session,
        bdf: device.bdf,
        vendor_id: device.vendor as u32,
        device_id: device.device_id as u32,
        class_code: device.class,
        region_count: device.region_count as u32,
        irq_bound: irqs,
        dma_grants: grants,
        dma_profile: profile,
        iommu_described: as_bit(machine.iommu_described),
        iommu_translating: as_bit(machine.iommu_translating),
        access_platform: as_bit(device.access_platform),
        bus_master: as_bit(device.bus_master),
        dma_address_bits: device.dma_address_bits,
        isolation_group: device.isolation_group,
        group_members: device.group_members,
        object_id: device.id,
        sponsor_scope_id: machine.scope(device.sponsor as usize).id,
        label: device.label,
        regions,
    }
}

/// Checks that the caller is talking about the session the device is in.
fn session_ok(machine: &Machine, i: usize, session: u32) -> (yes: bool)
    requires
        machine.wf(),
        i < MAX_DEVICES,
    ensures
        yes == machine@.is_session(i as int, session),
{
    session != 0 && machine.device(i).session == session
}

/// Reports identity, state, regions and isolation profile.
pub fn query(machine: &Machine, ctx: &Ctx) -> (info: DeviceInfo)
    requires
        machine.wf(),
        ctx_ok(*ctx, ObjKind::Device),
    ensures
        info == machine@.device_info(ctx.cap.object.index as int),
{
    describe(machine, ctx.cap.object.index as usize)
}

/// The first register mapping from `from` on that is free, or
/// [`MAX_DEVICE_MAPS`].
pub open spec fn first_device_map(maps: Seq<MapRecord>, from: int) -> int
    decreases MAX_DEVICE_MAPS - from,
{
    if from >= MAX_DEVICE_MAPS {
        MAX_DEVICE_MAPS as int
    } else if !maps[from].used {
        from
    } else {
        first_device_map(maps, from + 1)
    }
}

/// What device registers are mapped with: uncacheable and never executable.
pub open spec fn register_rights() -> Rights {
    Rights { read: true, write: true, execute: false, user: true, uncacheable: true }
}

impl MachineModel {
    /// The domain a window is mapped in, or why it may not be.
    pub open spec fn region_target(self, ctx: Ctx, request: DeviceMapRequest) -> Result<
        Resolved,
        Status,
    > {
        self.resolved(
            ctx.domain as int,
            request.domain_handle,
            object_type::DOMAIN,
            right::DOMAIN_BUILD,
            ctx.now,
        )
    }

    /// Why a window is not mapped before the page tables are touched, or
    /// nothing.
    pub open spec fn region_fault(self, ctx: Ctx, request: DeviceMapRequest) -> Option<Status> {
        let i = ctx.cap.object.index as int;
        if !self.is_session(i, request.session) {
            Some(Status::StateConflict)
        } else if request.region_index >= self.devices[i].region_count {
            Some(Status::InvalidArgument)
        } else if request.vaddr % 0x1000 != 0 || request.vaddr < USER_START || request.vaddr
            >= USER_END {
            Some(Status::InvalidAddress)
        } else {
            match self.region_target(ctx, request) {
                Err(code) => Some(code),
                Ok(target) => {
                    let domain = self.domains[target.object.index as int];
                    let region = self.devices[i].regions@[request.region_index as int];
                    if domain.state != DomainState::Building {
                        Some(Status::StateConflict)
                    } else if request.vaddr + region.length > USER_END {
                        Some(Status::InvalidAddress)
                    } else if first_device_map(self.device_maps, 0) == MAX_DEVICE_MAPS
                        || !self.affords(domain.owner_scope, Resource::Metadata, 1) {
                        Some(Status::LimitExhausted)
                    } else if domain.space is None && region.length / 0x1000 != 0 {
                        Some(Status::StateConflict)
                    } else {
                        None
                    }
                },
            }
        }
    }

    /// The machine with one mapping more, or one fewer, counted on a window.
    pub open spec fn window_counted(self, i: int, slot: int, more: bool) -> MachineModel {
        let device = self.devices[i];
        let region = device.regions@[slot];
        self.with_device(
            i,
            Device {
                regions: array_of(
                    device.regions@.update(
                        slot,
                        Region {
                            maps: if more {
                                one_more(region.maps)
                            } else {
                                one_less(region.maps)
                            },
                            ..region
                        },
                    ),
                ),
                ..device
            },
        )
    }

    /// The machine once a window has been mapped, what frames are used for
    /// apart.
    pub open spec fn region_mapped(self, ctx: Ctx, request: DeviceMapRequest) -> MachineModel {
        let i = ctx.cap.object.index as int;
        let d = self.region_target(ctx, request)->Ok_0.object.index as int;
        let device = self.devices[i];
        let region = device.regions@[request.region_index as int];
        let owner = self.domains[d].owner_scope;
        let paid = self.charge(owner, Resource::Metadata, 1);
        MachineModel {
            pages: with_run(
                self.pages,
                self.root_of(d),
                request.vaddr,
                Frame { number: region.phys / 0x1000 },
                register_rights(),
                (region.length / 0x1000) as nat,
            ),
            ..paid
        }.with_device_map(
            first_device_map(self.device_maps, 0),
            MapRecord {
                used: true,
                device: i as u16,
                device_generation: device.generation,
                session: device.session,
                region: request.region_index as u8,
                domain: d as u16,
                domain_generation: self.domains[d].generation,
                vaddr: request.vaddr,
                pages: (region.length / 0x1000) as u32,
                scope: owner,
            },
        ).window_counted(i, request.region_index as int, true)
    }
}

/// Counts one mapping more, or one fewer, on a window.
fn count_window(machine: &mut Machine, i: usize, slot: usize, more: bool)
    requires
        old(machine).wf(),
        i < MAX_DEVICES,
        slot < MAX_DEVICE_REGIONS,
    ensures
        final(machine).wf(),
        final(machine).same_tables(*old(machine)),
        final(machine)@ == old(machine)@.window_counted(i as int, slot as int, more),
{
    let device = machine.device(i);
    let mut regions = device.regions;
    let region = regions[slot];
    assert(crate::device::region_ok(device.regions@[slot as int]));
    regions[slot] = Region {
        maps: if more {
            region.maps.saturating_add(1)
        } else {
            region.maps.saturating_sub(1)
        },
        ..region
    };
    proof {
        array_of_elements(regions);
        assert forall|k: int| 0 <= k < MAX_DEVICE_REGIONS implies crate::device::region_ok(
            #[trigger] regions@[k],
        ) by {
            assert(crate::device::region_ok(device.regions@[k]));
        }
    }
    machine.set_device(i, Device { regions, ..device });
}

/// Checks a window before it is mapped; returns the domain.
fn check_region(machine: &Machine, ctx: &Ctx, request: &DeviceMapRequest) -> (result: Result<
    usize,
    Status,
>)
    requires
        machine.wf(),
        ctx_ok(*ctx, ObjKind::Device),
    ensures
        match result {
            Ok(d) => {
                &&& machine@.region_fault(*ctx, *request) is None
                &&& machine@.region_target(*ctx, *request) matches Ok(cap) && cap.object.index
                    == d
                &&& d < MAX_DOMAINS
            },
            Err(code) => machine@.region_fault(*ctx, *request) == Some(code),
        },
{
    let i: usize = ctx.cap.object.index as usize;
    if !session_ok(machine, i, request.session) {
        return Err(Status::StateConflict);
    }
    let device = machine.device(i);
    if request.region_index >= device.region_count as u32 {
        return Err(Status::InvalidArgument);
    }
    if request.vaddr % 0x1000 != 0 || request.vaddr < USER_START || request.vaddr >= USER_END {
        return Err(Status::InvalidAddress);
    }
    let target = match resolve(
        machine,
        ctx.domain,
        request.domain_handle,
        object_type::DOMAIN,
        right::DOMAIN_BUILD,
        ctx.now,
    ) {
        Err(code) => {
            return Err(code);
        },
        Ok(target) => target,
    };
    assert(target.object.kind == ObjKind::Domain);
    let d: usize = target.object.index as usize;
    let domain = machine.domain(d);
    if domain.state != DomainState::Building {
        return Err(Status::StateConflict);
    }
    let region = device.regions[request.region_index as usize];
    assert(crate::device::region_ok(device.regions@[request.region_index as int]));
    if region.length > USER_END - request.vaddr {
        return Err(Status::InvalidAddress);
    }
    if find_device_map(machine) == MAX_DEVICE_MAPS || !machine.affords(
        domain.owner_scope,
        Resource::Metadata,
        1,
    ) {
        return Err(Status::LimitExhausted);
    }
    if domain.space.is_none() && region.length / 0x1000 != 0 {
        return Err(Status::StateConflict);
    }
    Ok(d)
}

/// Finds the first register mapping that is free.
fn find_device_map(machine: &Machine) -> (at: usize)
    requires
        machine.wf(),
    ensures
        at == first_device_map(machine@.device_maps, 0),
        at <= MAX_DEVICE_MAPS,
        at < MAX_DEVICE_MAPS ==> !machine@.device_maps[at as int].used,
{
    let mut at: usize = 0;
    while at < MAX_DEVICE_MAPS && machine.device_map(at).used
        invariant
            machine.wf(),
            at <= MAX_DEVICE_MAPS,
            first_device_map(machine@.device_maps, 0) == first_device_map(
                machine@.device_maps,
                at as int,
            ),
        decreases MAX_DEVICE_MAPS - at,
    {
        at += 1;
    }
    at
}

/// The page tables refused a window that nothing else stood against.
pub open spec fn region_refused(machine: Machine, ctx: Ctx, request: DeviceMapRequest) -> bool {
    let i = ctx.cap.object.index as int;
    let d = machine@.region_target(ctx, request)->Ok_0.object.index as int;
    let region = machine@.devices[i].regions@[request.region_index as int];
    exists|charged: Machine, error: MapError|
        {
            &&& charged@ == (MachineModel {
                device_maps: charged@.device_maps,
                ..machine@.charge(machine@.domains[d].owner_scope, Resource::Metadata, 1)
            })
            &&& charged.same_tables(machine)
            &&& #[trigger] charged.run_refused(
                d,
                request.vaddr,
                Frame { number: region.phys / 0x1000 },
                register_rights(),
                (region.length / 0x1000) as int,
                error,
            )
        }
}

/// Takes a register mapping back none of whose pages was made.
fn leave_window(
    machine: &mut Machine,
    at: usize,
    former: MapRecord,
    record: MapRecord,
    Ghost(was): Ghost<MachineModel>,
)
    requires
        old(machine).wf(),
        at < MAX_DEVICE_MAPS,
        device_map_ok(former),
        was.sized(),
        was.backing().stands(),
        former == was.device_maps[at as int],
        tables_grew(was.uses, old(machine)@.uses, Owner::Domain(record.domain)),
        old(machine)@ == (MachineModel {
            uses: old(machine)@.uses,
            ..was.with_device_map(at as int, record)
        }),
    ensures
        final(machine).wf(),
        final(machine).same_tables(*old(machine)),
        final(machine)@ == (MachineModel { uses: old(machine)@.uses, ..was }),
{
    let ghost entered = machine@;
    proof {
        let now = entered.backing().with_window(at as int, former);
        let then = was.backing();
        assert(now.device_maps =~= was.device_maps);
        assert forall|d: int, f: int|
            0 <= d < now.domains.len() && now.domains[d].space is Some && #[trigger] then.holds(
                d,
                f,
            ) implies now.holds(d, f) by {
            assert(now.uses[f] == then.uses[f]);
        }
        now.stands_on(then);
    }
    machine.set_device_map(at, former);
    proof {
        assert(machine@.device_maps =~= was.device_maps);
        assert(machine@ =~= (MachineModel { uses: entered.uses, ..was }));
    }
}

/// Maps one authorised register window into a domain; returns its pages.
#[verifier::spinoff_prover]
pub fn map_region(machine: &mut Machine, ctx: &Ctx, request: &DeviceMapRequest) -> (result: Result<
    u64,
    Status,
>)
    requires
        old(machine).wf(),
        ctx_ok(*ctx, ObjKind::Device),
    ensures
        final(machine).wf(),
        match old(machine)@.region_fault(*ctx, *request) {
            Some(code) => {
                &&& result == Err::<u64, Status>(code)
                &&& final(machine)@ == old(machine)@
            },
            None => {
                let d = old(machine)@.region_target(*ctx, *request)->Ok_0.object.index;
                let i = ctx.cap.object.index as int;
                let region = old(machine)@.devices[i].regions@[request.region_index as int];
                &&& tables_grew(old(machine)@.uses, final(machine)@.uses, Owner::Domain(d))
                &&& match result {
                    Ok(pages) => {
                        &&& pages == region.length / 0x1000
                        &&& final(machine)@ == (MachineModel {
                            uses: final(machine)@.uses,
                            ..old(machine)@.region_mapped(*ctx, *request)
                        })
                    },
                    Err(code) => {
                        &&& code == Status::StateConflict
                        &&& final(machine)@ == (MachineModel {
                            uses: final(machine)@.uses,
                            ..old(machine)@
                        })
                        &&& region_refused(*old(machine), *ctx, *request)
                    },
                }
            },
        },
{
    let d: usize = match check_region(machine, ctx, request) {
        Err(code) => {
            return Err(code);
        },
        Ok(d) => d,
    };
    let i: usize = ctx.cap.object.index as usize;
    let slot: usize = request.region_index as usize;
    let device = machine.device(i);
    let region = device.regions[slot];
    assert(crate::device::region_ok(device.regions@[slot as int]));
    let pages: u64 = region.length / 0x1000;
    let at: usize = find_device_map(machine);
    let domain = machine.domain(d);
    let owner: u16 = domain.owner_scope;
    let ghost m = machine@;
    proof {
        machine.wf_scopes();
        machine.wf_sized();
    }
    machine.charge(owner, Resource::Metadata, 1);
    let ghost charged = *machine;
    let base = Frame { number: region.phys / 0x1000 };
    let rights = Rights {
        read: true,
        write: true,
        execute: false,
        user: true,
        uncacheable: true,
    };
    let former = machine.device_map(at);
    let record = MapRecord {
        used: true,
        device: i as u16,
        device_generation: device.generation,
        session: device.session,
        region: slot as u8,
        domain: d as u16,
        domain_generation: domain.generation,
        vaddr: request.vaddr,
        pages: pages as u32,
        scope: owner,
    };
    proof {
        charged.wf_stands();
        charged.wf_sized();
        let now = machine@.backing();
        assert(now.takes_window(at as int, record));
        now.with_window(at as int, record).stands_with_window(now, at as int, record);
    }
    machine.set_device_map(at, record);
    let ghost entered = *machine;
    proof {
        assert forall|w: u64| covers(request.vaddr, pages as u32, w) implies
            #[trigger] machine@.backing().run_backs(
            d as int,
            request.vaddr,
            base.number as int,
            w,
        ) by {
            assert(machine@.backing().window_backs(
                at as int,
                d as int,
                w,
                base.number + (w - request.vaddr) / 0x1000,
            ));
        }
    }
    let outcome = if domain.space.is_none() {
        proof {
            assert(with_run(m.pages, m.root_of(d as int), request.vaddr, base, rights, 0)
                =~= m.pages);
        }
        Ok(())
    } else {
        machine.map_pages(d, request.vaddr, base, rights, pages as u32)
    };
    match outcome {
        Err(error) => {
            leave_window(machine, at, former, record, Ghost(charged@));
            proof {
                release_undoes_reserve(m.scopes, owner as int, Resource::Metadata, 1);
            }
            machine.uncharge(owner, Resource::Metadata, 1);
            proof {
                assert(machine@ =~= (MachineModel { uses: machine@.uses, ..m }));
                assert(entered.run_refused(
                    d as int,
                    request.vaddr,
                    base,
                    rights,
                    pages as int,
                    error,
                ));
                assert(region_refused(*old(machine), *ctx, *request));
            }
            return Err(Status::StateConflict);
        },
        Ok(()) => {},
    }
    count_window(machine, i, slot, true);
    Ok(pages)
}

impl MachineModel {
    /// The machine, and the pages removed, once a register mapping has been
    /// withdrawn.
    ///
    /// The frames are device registers, not memory: what goes is the
    /// translation.
    pub open spec fn device_map_withdrawn(self, k: int) -> (MachineModel, u32) {
        let record = self.device_maps[k];
        let d = record.domain as int;
        if !record.used {
            (self, 0)
        } else {
            let (cut, removed) = if self.domains[d].generation == record.domain_generation
                && self.domains[d].space is Some {
                self.unmap_pages(self.root_of(d), record.vaddr, record.pages as nat)
            } else {
                (self, 0)
            };
            let i = record.device as int;
            let counted = if cut.devices[i].generation == record.device_generation
                && record.region < MAX_DEVICE_REGIONS {
                cut.window_counted(i, record.region as int, false)
            } else {
                cut
            };
            let freed = counted.uncharge(record.scope, Resource::Metadata, 1).with_device_map(
                k,
                MapRecord::empty_spec(),
            );
            (
                if removed == 0 {
                    freed
                } else {
                    freed.publish()
                },
                removed,
            )
        }
    }

    /// A register mapping of a device at an address.
    pub open spec fn is_named_region(self, k: int, i: int, vaddr: u64) -> bool {
        let record = self.device_maps[k];
        record.used && record.device == i && record.vaddr == vaddr
    }

    /// The first register mapping from `from` on of a device at an address, or
    /// [`MAX_DEVICE_MAPS`].
    pub open spec fn named_region(self, from: int, i: int, vaddr: u64) -> int
        decreases MAX_DEVICE_MAPS - from,
    {
        if from >= MAX_DEVICE_MAPS {
            MAX_DEVICE_MAPS as int
        } else if self.is_named_region(from, i, vaddr) {
            from
        } else {
            self.named_region(from + 1, i, vaddr)
        }
    }

    /// What the first step of unmapping a window comes to.
    pub open spec fn region_unmap_begun(self, ctx: Ctx, request: DeviceMapRequest, now: u64) -> (
        MachineModel,
        Result<u32, Status>,
    ) {
        match self.resolved(
            ctx.domain as int,
            ctx.handle,
            object_type::DEVICE,
            right::DEVICE_MAP,
            now,
        ) {
            Err(code) => (self, Err(code)),
            Ok(cap) => {
                let i = cap.object.index as int;
                let k = self.named_region(0, i, request.vaddr);
                if !self.is_session(i, request.session) {
                    (self, Err(Status::StateConflict))
                } else if k == MAX_DEVICE_MAPS {
                    (self, Err(Status::InvalidArgument))
                } else {
                    let (after, pages) = self.device_map_withdrawn(k);
                    (after, Ok(pages))
                }
            },
        }
    }
}

/// Removes one device mapping from its domain's tables; returns the pages
/// removed.
pub fn withdraw_device_map(machine: &mut Machine, k: usize) -> (removed: u32)
    requires
        old(machine).wf(),
        k < MAX_DEVICE_MAPS,
    ensures
        final(machine).wf(),
        (final(machine)@, removed) == old(machine)@.device_map_withdrawn(k as int),
{
    let record = machine.device_map(k);
    if !record.used {
        return 0;
    }
    let d: usize = record.domain as usize;
    let domain = machine.domain(d);
    let mut removed: u32 = 0;
    proof {
        machine.wf_sized();
        if machine@.domains[d as int].space is Some {
            machine.unmapped_range_is_bare(d as int, record.vaddr, record.pages);
            unmapping_keeps_tables(
                machine@,
                machine@.root_of(d as int),
                record.vaddr,
                record.pages as nat,
            );
        }
    }
    if domain.generation == record.domain_generation && domain.space.is_some() {
        removed = machine.unmap_pages(d, record.vaddr, record.pages);
    }
    proof {
        machine.wf_sized();
        machine.wf_stands();
        let now = machine@.backing();
        assert(now.loses_window(k as int));
        now.with_window(k as int, MapRecord::empty_spec()).stands_with_window(
            now,
            k as int,
            MapRecord::empty_spec(),
        );
    }
    machine.set_device_map(k, MapRecord::empty());
    let i: usize = record.device as usize;
    if machine.device(i).generation == record.device_generation && (record.region as usize)
        < MAX_DEVICE_REGIONS {
        count_window(machine, i, record.region as usize, false);
    }
    machine.uncharge(record.scope, Resource::Metadata, 1);
    if removed != 0 {
        machine.publish();
    }
    removed
}

/// Withdraws a device mapping; [`finish_unmap_region`] answers once every
/// processor has retired it.
pub fn begin_unmap_region(
    machine: &mut Machine,
    ctx: &Ctx,
    request: &DeviceMapRequest,
    now: u64,
) -> (result: Result<u32, Status>)
    requires
        old(machine).wf(),
        caller_ok(*ctx),
    ensures
        final(machine).wf(),
        (final(machine)@, result) == old(machine)@.region_unmap_begun(*ctx, *request, now),
{
    let cap = match resolve(
        machine,
        ctx.domain,
        ctx.handle,
        object_type::DEVICE,
        right::DEVICE_MAP,
        now,
    ) {
        Err(code) => {
            return Err(code);
        },
        Ok(cap) => cap,
    };
    assert(cap.object.kind == ObjKind::Device);
    let i: usize = cap.object.index as usize;
    if !session_ok(machine, i, request.session) {
        return Err(Status::StateConflict);
    }
    for k in 0..MAX_DEVICE_MAPS
        invariant
            *machine == *old(machine),
            machine.wf(),
            i == cap.object.index,
            machine@.is_session(i as int, request.session),
            machine@.resolved(
                ctx.domain as int,
                ctx.handle,
                object_type::DEVICE,
                right::DEVICE_MAP,
                now,
            ) == Ok::<Resolved, Status>(cap),
            machine@.named_region(0, i as int, request.vaddr) == machine@.named_region(
                k as int,
                i as int,
                request.vaddr,
            ),
    {
        let record = machine.device_map(k);
        if record.used && record.device as usize == i && record.vaddr == request.vaddr {
            let removed: u32 = withdraw_device_map(machine, k);
            return Ok(removed);
        }
    }
    Err(Status::InvalidArgument)
}

/// The answer to the withdrawal of a window, once processors have acknowledged
/// or not.
pub fn finish_unmap_region(pages: u32, acknowledged: bool) -> (result: Result<u64, Status>)
    ensures
        result == if acknowledged {
            Ok::<u64, Status>(pages as u64)
        } else {
            Err::<u64, Status>(Status::DrainIncomplete)
        },
{
    if acknowledged {
        Ok(pages as u64)
    } else {
        Err(Status::DrainIncomplete)
    }
}

/// The first binding from `from` on that is free, or [`MAX_IRQ_BINDINGS`].
pub open spec fn first_irq(irqs: Seq<IrqBinding>, from: int) -> int
    decreases MAX_IRQ_BINDINGS - from,
{
    if from >= MAX_IRQ_BINDINGS {
        MAX_IRQ_BINDINGS as int
    } else if !irqs[from].used {
        from
    } else {
        first_irq(irqs, from + 1)
    }
}

/// An entry of a device's interrupt table is bound already.
pub open spec fn is_bound(irqs: Seq<IrqBinding>, i: int, entry: u16) -> bool {
    exists|k: int|
        0 <= k < MAX_IRQ_BINDINGS && (#[trigger] irqs[k]).used && irqs[k].device == i
            && irqs[k].entry == entry
}

/// A vector is in use.
pub open spec fn vector_used(irqs: Seq<IrqBinding>, vector: u8) -> bool {
    exists|k: int|
        0 <= k < MAX_IRQ_BINDINGS && (#[trigger] irqs[k]).used && irqs[k].vector == vector
}

/// The first device vector from `from` on that is free.
pub open spec fn free_vector(irqs: Seq<IrqBinding>, from: int) -> Option<u8>
    decreases DEVICE_VECTOR_BASE + DEVICE_VECTOR_COUNT - from,
{
    if from >= DEVICE_VECTOR_BASE + DEVICE_VECTOR_COUNT {
        None
    } else if !vector_used(irqs, from as u8) {
        Some(from as u8)
    } else {
        free_vector(irqs, from + 1)
    }
}

/// What the kernel writes to an entry of an interrupt table.
#[derive(Clone, Copy, Debug, PartialEq, Eq, Structural)]
pub struct TableEntry {
    /// The kernel's mapping of the table.
    pub table: u64,
    /// The entry.
    pub entry: u16,
    /// Address the interrupt writes to.
    pub address: u64,
    /// What it writes.
    pub data: u32,
}

impl MachineModel {
    /// The signal an interrupt raises, or why it may not be routed there.
    pub open spec fn irq_signal(self, ctx: Ctx, request: DeviceIrqRequest) -> Result<
        Resolved,
        Status,
    > {
        self.resolved(
            ctx.domain as int,
            request.signal_handle,
            object_type::SIGNAL,
            right::SIGNAL_RAISE,
            ctx.now,
        )
    }

    /// Why an interrupt is not routed, or nothing when it is.
    pub open spec fn irq_fault(self, ctx: Ctx, request: DeviceIrqRequest) -> Option<Status> {
        let i = ctx.cap.object.index as int;
        if !self.is_session(i, request.session) {
            Some(Status::StateConflict)
        } else if request.bits == 0 {
            Some(Status::InvalidArgument)
        } else {
            match self.devices[i].msix {
                None => Some(Status::NotSupported),
                Some(msix) => if request.vector_index >= msix.vectors {
                    Some(Status::InvalidArgument)
                } else {
                    match self.irq_signal(ctx, request) {
                        Err(code) => Some(code),
                        Ok(_) => if is_bound(self.irqs, i, request.vector_index as u16) {
                            Some(Status::StateConflict)
                        } else if first_irq(self.irqs, 0) == MAX_IRQ_BINDINGS || free_vector(
                            self.irqs,
                            DEVICE_VECTOR_BASE as int,
                        ) is None {
                            Some(Status::LimitExhausted)
                        } else {
                            None
                        },
                    }
                },
            }
        }
    }

    /// The machine once an interrupt is routed to a signal.
    pub open spec fn irq_bound(self, ctx: Ctx, request: DeviceIrqRequest) -> MachineModel {
        let i = ctx.cap.object.index as int;
        let signal = self.irq_signal(ctx, request)->Ok_0.object;
        self.with_irq(
            first_irq(self.irqs, 0),
            IrqBinding {
                used: true,
                device: i as u16,
                device_generation: self.devices[i].generation,
                session: self.devices[i].session,
                entry: request.vector_index as u16,
                vector: free_vector(self.irqs, DEVICE_VECTOR_BASE as int)->0,
                signal: signal.index,
                signal_generation: signal.generation,
                bits: request.bits,
                deliveries: 0,
            },
        )
    }
}

/// Whether a vector is in use.
fn uses_vector(machine: &Machine, vector: u8) -> (yes: bool)
    requires
        machine.wf(),
    ensures
        yes == vector_used(machine@.irqs, vector),
{
    for k in 0..MAX_IRQ_BINDINGS
        invariant
            machine.wf(),
            forall|j: int|
                0 <= j < k ==> !((#[trigger] machine@.irqs[j]).used && machine@.irqs[j].vector
                    == vector),
    {
        let binding = machine.irq(k);
        if binding.used && binding.vector == vector {
            assert(machine@.irqs[k as int].used);
            return true;
        }
    }
    false
}

/// Finds the first device vector that is free.
fn find_vector(machine: &Machine) -> (vector: Option<u8>)
    requires
        machine.wf(),
    ensures
        vector == free_vector(machine@.irqs, DEVICE_VECTOR_BASE as int),
        vector matches Some(v) ==> is_device_vector(v),
{
    let end: u8 = DEVICE_VECTOR_BASE + DEVICE_VECTOR_COUNT;
    let mut vector: u8 = DEVICE_VECTOR_BASE;
    while vector < end
        invariant
            machine.wf(),
            end == DEVICE_VECTOR_BASE + DEVICE_VECTOR_COUNT,
            DEVICE_VECTOR_BASE <= vector <= end,
            free_vector(machine@.irqs, DEVICE_VECTOR_BASE as int) == free_vector(
                machine@.irqs,
                vector as int,
            ),
        decreases end - vector,
    {
        if !uses_vector(machine, vector) {
            return Some(vector);
        }
        vector += 1;
    }
    None
}

/// Whether an entry of a device's interrupt table is bound already.
fn entry_bound(machine: &Machine, i: usize, entry: u16) -> (yes: bool)
    requires
        machine.wf(),
    ensures
        yes == is_bound(machine@.irqs, i as int, entry),
{
    for k in 0..MAX_IRQ_BINDINGS
        invariant
            machine.wf(),
            forall|j: int|
                0 <= j < k ==> !((#[trigger] machine@.irqs[j]).used && machine@.irqs[j].device
                    == i && machine@.irqs[j].entry == entry),
    {
        let binding = machine.irq(k);
        if binding.used && binding.device as usize == i && binding.entry == entry {
            assert(machine@.irqs[k as int].used);
            return true;
        }
    }
    false
}

/// Routes one device interrupt to a signal; returns the vector and what the
/// kernel has to write to the interrupt table for it.
///
/// `destination` is the controller of a processor that is online. A driver that
/// could write the table would be choosing the address and the payload of a
/// memory write the machine performs for it.
pub fn bind_irq(
    machine: &mut Machine,
    ctx: &Ctx,
    request: &DeviceIrqRequest,
    destination: u32,
) -> (result: Result<(u64, TableEntry), Status>)
    requires
        old(machine).wf(),
        ctx_ok(*ctx, ObjKind::Device),
    ensures
        final(machine).wf(),
        final(machine).same_tables(*old(machine)),
        match old(machine)@.irq_fault(*ctx, *request) {
            Some(code) => {
                &&& result == Err::<(u64, TableEntry), Status>(code)
                &&& final(machine)@ == old(machine)@
            },
            None => {
                let vector = free_vector(old(machine)@.irqs, DEVICE_VECTOR_BASE as int)->0;
                &&& final(machine)@ == old(machine)@.irq_bound(*ctx, *request)
                &&& result == Ok::<(u64, TableEntry), Status>(
                    (
                        vector as u64,
                        TableEntry {
                            table: old(machine)@.devices[ctx.cap.object.index as int].msix_table,
                            entry: request.vector_index as u16,
                            address: INTERRUPT_ADDRESS_BASE | (destination as u64) << 12,
                            data: vector as u32,
                        },
                    ),
                )
            },
        },
{
    let i: usize = ctx.cap.object.index as usize;
    if !session_ok(machine, i, request.session) {
        return Err(Status::StateConflict);
    }
    if request.bits == 0 {
        return Err(Status::InvalidArgument);
    }
    let device = machine.device(i);
    let msix = match device.msix {
        None => {
            return Err(Status::NotSupported);
        },
        Some(msix) => msix,
    };
    if request.vector_index >= msix.vectors as u32 {
        return Err(Status::InvalidArgument);
    }
    let entry: u16 = request.vector_index as u16;
    let signal = match resolve(
        machine,
        ctx.domain,
        request.signal_handle,
        object_type::SIGNAL,
        right::SIGNAL_RAISE,
        ctx.now,
    ) {
        Err(code) => {
            return Err(code);
        },
        Ok(cap) => cap.object,
    };
    assert(signal.kind == ObjKind::Signal);
    if entry_bound(machine, i, entry) {
        return Err(Status::StateConflict);
    }
    let mut slot: usize = 0;
    while slot < MAX_IRQ_BINDINGS && machine.irq(slot).used
        invariant
            machine.wf(),
            slot <= MAX_IRQ_BINDINGS,
            first_irq(machine@.irqs, 0) == first_irq(machine@.irqs, slot as int),
        decreases MAX_IRQ_BINDINGS - slot,
    {
        slot += 1;
    }
    if slot == MAX_IRQ_BINDINGS {
        return Err(Status::LimitExhausted);
    }
    let vector: u8 = match find_vector(machine) {
        None => {
            return Err(Status::LimitExhausted);
        },
        Some(vector) => vector,
    };
    machine.set_irq(
        slot,
        IrqBinding {
            used: true,
            device: i as u16,
            device_generation: device.generation,
            session: device.session,
            entry,
            vector,
            signal: signal.index,
            signal_generation: signal.generation,
            bits: request.bits,
            deliveries: 0,
        },
    );
    let address: u64 = INTERRUPT_ADDRESS_BASE | ((destination as u64) << 12);
    Ok(
        (
            vector as u64,
            TableEntry { table: device.msix_table, entry, address, data: vector as u32 },
        ),
    )
}

/// Checks a request to enable or disable bus mastering; returns the function to
/// write to. `reachable` says whether configuration space can be.
pub fn check_master(machine: &Machine, ctx: &Ctx, session: u32, reachable: bool) -> (result: Result<
    u32,
    Status,
>)
    requires
        machine.wf(),
        ctx_ok(*ctx, ObjKind::Device),
    ensures
        result == if !machine@.is_session(ctx.cap.object.index as int, session) {
            Err::<u32, Status>(Status::StateConflict)
        } else if !reachable {
            Err::<u32, Status>(Status::NotSupported)
        } else {
            Ok::<u32, Status>(machine@.devices[ctx.cap.object.index as int].bdf)
        },
{
    let i: usize = ctx.cap.object.index as usize;
    if !session_ok(machine, i, session) {
        return Err(Status::StateConflict);
    }
    if !reachable {
        return Err(Status::NotSupported);
    }
    Ok(machine.device(i).bdf)
}

/// Records whether a device masters the bus, as configuration space says.
pub fn set_master(machine: &mut Machine, ctx: &Ctx, effective: bool) -> (answer: u64)
    requires
        old(machine).wf(),
        ctx_ok(*ctx, ObjKind::Device),
    ensures
        final(machine).wf(),
        final(machine).same_tables(*old(machine)),
        answer == bit(effective),
        final(machine)@ == old(machine)@.with_device(
            ctx.cap.object.index as int,
            Device {
                bus_master: effective,
                state: if effective {
                    State::Running
                } else {
                    State::Ready
                },
                ..old(machine)@.devices[ctx.cap.object.index as int]
            },
        ),
{
    let i: usize = ctx.cap.object.index as usize;
    let device = machine.device(i);
    machine.set_device(
        i,
        Device {
            bus_master: effective,
            state: if effective {
                State::Running
            } else {
                State::Ready
            },
            ..device
        },
    );
    as_bit(effective) as u64
}

/// The first DMA grant from `from` on that is free, or [`MAX_DMA_GRANTS`].
pub open spec fn first_dma_grant(grants: Seq<DmaGrant>, from: int) -> int
    decreases MAX_DMA_GRANTS - from,
{
    if from >= MAX_DMA_GRANTS {
        MAX_DMA_GRANTS as int
    } else if !grants[from].used {
        from
    } else {
        first_dma_grant(grants, from + 1)
    }
}

/// `2` to the power of `n`, for a width of an address.
pub open spec fn two_to(n: u32) -> int
    decreases n,
{
    if n == 0 {
        1
    } else {
        2 * two_to((n - 1) as u32)
    }
}

impl MachineModel {
    /// The memory object a device is to reach, or why it may not.
    pub open spec fn dma_source(self, ctx: Ctx, request: DmaMapRequest) -> Result<
        Resolved,
        Status,
    > {
        self.resolved(
            ctx.domain as int,
            request.memory_handle,
            object_type::MEMORY,
            request.rights,
            ctx.now,
        )
    }

    /// First address of the pages a device is to reach.
    pub open spec fn dma_base(self, ctx: Ctx, request: DmaMapRequest) -> int {
        let o = self.dma_source(ctx, request)->Ok_0.object.index as int;
        (self.memories[o].base.number + request.offset_pages) * 0x1000
    }

    /// Why a device is not let to pages, or nothing when it is.
    ///
    /// The profile is decided before anything is pinned: a machine that cannot
    /// sustain what the caller required refuses, rather than granting something
    /// weaker under the name of the thing that was asked for.
    pub open spec fn dma_fault(self, ctx: Ctx, request: DmaMapRequest) -> Option<Status> {
        let i = ctx.cap.object.index as int;
        let device = self.devices[i];
        let profile = device.profile_spec(self.iommu_described, self.iommu_translating).0;
        if !self.is_session(i, request.session) {
            Some(Status::StateConflict)
        } else if request.reserved0 != 0 || request.page_count == 0 {
            Some(Status::InvalidArgument)
        } else if request.rights == 0 || request.rights & !(right::MEMORY_READ
            | right::MEMORY_WRITE) != 0 {
            Some(Status::InvalidArgument)
        } else if request.required_profile != 0 && request.required_profile != profile {
            Some(Status::UnsupportedProfile)
        } else {
            match self.dma_source(ctx, request) {
                Err(code) => Some(code),
                Ok(memory) => {
                    let object = self.memories[memory.object.index as int];
                    let end = self.dma_base(ctx, request) + request.page_count * 0x1000;
                    if request.offset_pages + request.page_count > object.pages {
                        Some(Status::InvalidArgument)
                    } else if request.rights & right::MEMORY_WRITE != 0 && object.state
                        != MemState::Mutable {
                        Some(Status::StateConflict)
                    } else if device.dma_address_bits < 64 && end > two_to(
                        device.dma_address_bits,
                    ) {
                        Some(Status::InvalidArgument)
                    } else if first_dma_grant(self.dma_grants, 0) == MAX_DMA_GRANTS
                        || !self.affords(
                        self.domains[ctx.domain as int].owner_scope,
                        Resource::Metadata,
                        1,
                    ) {
                        Some(Status::LimitExhausted)
                    } else {
                        None
                    }
                },
            }
        }
    }

    /// The machine once a device may reach pages of a memory object.
    pub open spec fn dma_mapped(self, ctx: Ctx, request: DmaMapRequest) -> MachineModel {
        let i = ctx.cap.object.index as int;
        let device = self.devices[i];
        let memory = self.dma_source(ctx, request)->Ok_0.object;
        let o = memory.index as int;
        let owner = self.domains[ctx.domain as int].owner_scope;
        self.charge(owner, Resource::Metadata, 1).with_dma_grant(
            first_dma_grant(self.dma_grants, 0),
            DmaGrant {
                used: true,
                device: i as u16,
                session: device.session,
                memory: memory.index,
                memory_generation: memory.generation,
                offset_pages: request.offset_pages,
                pages: request.page_count,
                rights: request.rights,
                iova: self.dma_base(ctx, request) as u64,
                profile: device.profile_spec(self.iommu_described, self.iommu_translating).0,
                scope: owner,
            },
        ).with_memory(
            o,
            MemoryObject {
                dma_grants: one_more(self.memories[o].dma_grants),
                ..self.memories[o]
            },
        )
    }

    /// What is answered for pages a device may reach.
    pub open spec fn dma_info(self, ctx: Ctx, request: DmaMapRequest) -> DmaGrantInfo {
        let device = self.devices[ctx.cap.object.index as int];
        let o = self.dma_source(ctx, request)->Ok_0.object.index as int;
        DmaGrantInfo {
            iova: self.dma_base(ctx, request) as u64,
            length: (request.page_count * 0x1000) as u64,
            rights: request.rights,
            profile: device.profile_spec(self.iommu_described, self.iommu_translating).0,
            session: request.session,
            grant_index: first_dma_grant(self.dma_grants, 0) as u32,
            memory_object_id: self.memories[o].id,
        }
    }
}

/// Finds the first DMA grant that is free.
fn find_dma_grant(machine: &Machine) -> (at: usize)
    requires
        machine.wf(),
    ensures
        at == first_dma_grant(machine@.dma_grants, 0),
        at <= MAX_DMA_GRANTS,
{
    let mut at: usize = 0;
    while at < MAX_DMA_GRANTS && machine.dma_grant(at).used
        invariant
            machine.wf(),
            at <= MAX_DMA_GRANTS,
            first_dma_grant(machine@.dma_grants, 0) == first_dma_grant(
                machine@.dma_grants,
                at as int,
            ),
        decreases MAX_DMA_GRANTS - at,
    {
        at += 1;
    }
    at
}

/// Whether an address lies within a width.
fn within_bits(end: u64, bits: u32) -> (yes: bool)
    requires
        bits < 64,
    ensures
        yes == (end <= two_to(bits)),
{
    let mut power: u64 = 1;
    let mut n: u32 = 0;
    while n < bits
        invariant
            n <= bits,
            bits < 64,
            power == two_to(n),
            power <= 0x8000_0000_0000_0000,
            n < bits ==> power < 0x8000_0000_0000_0000,
            n <= 62 ==> power <= 0x4000_0000_0000_0000,
        decreases bits - n,
    {
        proof {
            two_to_small(n);
            two_to_small((n + 1) as u32);
        }
        power = power * 2;
        n += 1;
    }
    end <= power
}

proof fn two_to_small(n: u32)
    requires
        n <= 63,
    ensures
        1 <= two_to(n) <= 0x8000_0000_0000_0000,
        n <= 62 ==> two_to(n) <= 0x4000_0000_0000_0000,
{
    two_to_is(n);
}

proof fn two_to_is(n: u32)
    requires
        n <= 63,
    ensures
        two_to(n) == vstd::arithmetic::power2::pow2(n as nat),
        n <= 62 ==> two_to(n) <= 0x4000_0000_0000_0000,
        two_to(n) <= 0x8000_0000_0000_0000,
        two_to(n) >= 1,
    decreases n,
{
    vstd::arithmetic::power2::lemma2_to64();
    vstd::arithmetic::power2::lemma2_to64_rest();
    if n > 0 {
        two_to_is((n - 1) as u32);
        vstd::arithmetic::power2::lemma_pow2_unfold(n as nat);
    }
    if n < 62 {
        vstd::arithmetic::power2::lemma_pow2_strictly_increases(n as nat, 62);
    }
    if n < 63 {
        vstd::arithmetic::power2::lemma_pow2_strictly_increases(n as nat, 63);
    }
}

/// Grants a device access to pages of a memory object.
pub fn dma_map(machine: &mut Machine, ctx: &Ctx, request: &DmaMapRequest) -> (result: Result<
    DmaGrantInfo,
    Status,
>)
    requires
        old(machine).wf(),
        ctx_ok(*ctx, ObjKind::Device),
    ensures
        final(machine).wf(),
        final(machine).same_tables(*old(machine)),
        match old(machine)@.dma_fault(*ctx, *request) {
            Some(code) => {
                &&& result == Err::<DmaGrantInfo, Status>(code)
                &&& final(machine)@ == old(machine)@
            },
            None => {
                &&& result == Ok::<DmaGrantInfo, Status>(
                    old(machine)@.dma_info(*ctx, *request),
                )
                &&& final(machine)@ == old(machine)@.dma_mapped(*ctx, *request)
            },
        },
{
    let i: usize = ctx.cap.object.index as usize;
    if !session_ok(machine, i, request.session) {
        return Err(Status::StateConflict);
    }
    if request.reserved0 != 0 || request.page_count == 0 {
        return Err(Status::InvalidArgument);
    }
    if request.rights == 0 || request.rights & !(right::MEMORY_READ | right::MEMORY_WRITE) != 0 {
        return Err(Status::InvalidArgument);
    }
    let device = machine.device(i);
    let (profile, _) = device.profile(machine.iommu_described, machine.iommu_translating);
    if request.required_profile != 0 && request.required_profile != profile {
        return Err(Status::UnsupportedProfile);
    }
    let memory = match resolve(
        machine,
        ctx.domain,
        request.memory_handle,
        object_type::MEMORY,
        request.rights,
        ctx.now,
    ) {
        Err(code) => {
            return Err(code);
        },
        Ok(memory) => memory,
    };
    assert(memory.object.kind == ObjKind::Memory);
    let o: usize = memory.object.index as usize;
    let object = machine.memory(o);
    if request.offset_pages as u64 + request.page_count as u64 > object.pages as u64 {
        return Err(Status::InvalidArgument);
    }
    // A device that can write is inside the perimeter a seal promises.
    if request.rights & right::MEMORY_WRITE != 0 && object.state != MemState::Mutable {
        return Err(Status::StateConflict);
    }
    let base: u64 = (object.base.number + request.offset_pages as u64) * 0x1000;
    let length: u64 = request.page_count as u64 * 0x1000;
    if device.dma_address_bits < 64 && !within_bits(base + length, device.dma_address_bits) {
        return Err(Status::InvalidArgument);
    }
    let slot: usize = find_dma_grant(machine);
    let owner: u16 = machine.domain(ctx.domain).owner_scope;
    if slot == MAX_DMA_GRANTS || !machine.charge(owner, Resource::Metadata, 1) {
        return Err(Status::LimitExhausted);
    }
    machine.set_dma_grant(
        slot,
        DmaGrant {
            used: true,
            device: i as u16,
            session: device.session,
            memory: memory.object.index,
            memory_generation: memory.object.generation,
            offset_pages: request.offset_pages,
            pages: request.page_count,
            rights: request.rights,
            iova: base,
            profile,
            scope: owner,
        },
    );
    machine.set_memory(
        o,
        MemoryObject { dma_grants: object.dma_grants.saturating_add(1), ..object },
    );
    Ok(
        DmaGrantInfo {
            iova: base,
            length,
            rights: request.rights,
            profile,
            session: request.session,
            grant_index: slot as u32,
            memory_object_id: object.id,
        },
    )
}

impl MachineModel {
    /// The machine once a DMA grant has been revoked.
    pub open spec fn grant_revoked(self, k: int) -> MachineModel {
        let grant = self.dma_grants[k];
        let o = grant.memory as int;
        if !grant.used {
            self
        } else {
            let counted = if self.memories[o].generation == grant.memory_generation {
                self.with_memory(
                    o,
                    MemoryObject {
                        dma_grants: one_less(self.memories[o].dma_grants),
                        ..self.memories[o]
                    },
                )
            } else {
                self
            };
            counted.uncharge(grant.scope, Resource::Metadata, 1).with_dma_grant(
                k,
                DmaGrant::empty_spec(),
            )
        }
    }

    /// A DMA grant of a device at an address.
    pub open spec fn is_named_grant(self, k: int, i: int, iova: u64) -> bool {
        let grant = self.dma_grants[k];
        grant.used && grant.device == i && grant.iova == iova
    }

    /// The first DMA grant from `from` on of a device at an address, or
    /// [`MAX_DMA_GRANTS`].
    pub open spec fn named_grant(self, from: int, i: int, iova: u64) -> int
        decreases MAX_DMA_GRANTS - from,
    {
        if from >= MAX_DMA_GRANTS {
            MAX_DMA_GRANTS as int
        } else if self.is_named_grant(from, i, iova) {
            from
        } else {
            self.named_grant(from + 1, i, iova)
        }
    }

    /// Why a DMA grant is not revoked, or nothing when it is.
    pub open spec fn revoke_fault(self, ctx: Ctx, request: DmaUnmapRequest) -> Option<Status> {
        let i = ctx.cap.object.index as int;
        if !self.is_session(i, request.session) {
            Some(Status::StateConflict)
        } else if request.reserved0 != 0 {
            Some(Status::InvalidArgument)
        } else if self.devices[i].bus_master {
            Some(Status::StateConflict)
        } else if self.named_grant(0, i, request.iova) == MAX_DMA_GRANTS {
            Some(Status::InvalidArgument)
        } else {
            None
        }
    }
}

/// Removes one grant and gives its metadata charge back; returns its pages.
fn revoke_grant(machine: &mut Machine, k: usize) -> (pages: u32)
    requires
        old(machine).wf(),
        k < MAX_DMA_GRANTS,
    ensures
        final(machine).wf(),
        final(machine).same_tables(*old(machine)),
        final(machine)@ == old(machine)@.grant_revoked(k as int),
        pages == if old(machine)@.dma_grants[k as int].used {
            old(machine)@.dma_grants[k as int].pages
        } else {
            0
        },
{
    let grant = machine.dma_grant(k);
    if !grant.used {
        return 0;
    }
    let o: usize = grant.memory as usize;
    let object = machine.memory(o);
    if object.generation == grant.memory_generation {
        machine.set_memory(
            o,
            MemoryObject { dma_grants: object.dma_grants.saturating_sub(1), ..object },
        );
    }
    machine.uncharge(grant.scope, Resource::Metadata, 1);
    machine.set_dma_grant(k, DmaGrant::empty());
    grant.pages
}

/// Revokes a DMA grant; returns its pages.
///
/// Refused while the device can still be issuing transactions: removing a grant
/// while the device is live would be a bookkeeping change with no effect on what
/// the hardware may still do.
pub fn dma_unmap(machine: &mut Machine, ctx: &Ctx, request: &DmaUnmapRequest) -> (result: Result<
    u64,
    Status,
>)
    requires
        old(machine).wf(),
        ctx_ok(*ctx, ObjKind::Device),
    ensures
        final(machine).wf(),
        final(machine).same_tables(*old(machine)),
        match old(machine)@.revoke_fault(*ctx, *request) {
            Some(code) => {
                &&& result == Err::<u64, Status>(code)
                &&& final(machine)@ == old(machine)@
            },
            None => {
                let k = old(machine)@.named_grant(
                    0,
                    ctx.cap.object.index as int,
                    request.iova,
                );
                &&& result == Ok::<u64, Status>(old(machine)@.dma_grants[k].pages as u64)
                &&& final(machine)@ == old(machine)@.grant_revoked(k)
            },
        },
{
    let i: usize = ctx.cap.object.index as usize;
    if !session_ok(machine, i, request.session) {
        return Err(Status::StateConflict);
    }
    if request.reserved0 != 0 {
        return Err(Status::InvalidArgument);
    }
    if machine.device(i).bus_master {
        return Err(Status::StateConflict);
    }
    for k in 0..MAX_DMA_GRANTS
        invariant
            *machine == *old(machine),
            machine.wf(),
            i == ctx.cap.object.index,
            request.reserved0 == 0,
            machine@.is_session(i as int, request.session),
            !machine@.devices[i as int].bus_master,
            machine@.named_grant(0, i as int, request.iova) == machine@.named_grant(
                k as int,
                i as int,
                request.iova,
            ),
    {
        let grant = machine.dma_grant(k);
        if grant.used && grant.device as usize == i && grant.iova == request.iova {
            let pages: u32 = revoke_grant(machine, k);
            return Ok(pages as u64);
        }
    }
    Err(Status::InvalidArgument)
}

impl MachineModel {
    /// The machine once those of the first `n` bindings that belong to a device
    /// are gone.
    pub open spec fn irqs_unbound(self, i: int, n: nat) -> MachineModel
        decreases n,
    {
        if n == 0 {
            self
        } else {
            let before = self.irqs_unbound(i, (n - 1) as nat);
            if before.irqs[n - 1].used && before.irqs[n - 1].device == i {
                before.with_irq(n - 1, IrqBinding::empty_spec())
            } else {
                before
            }
        }
    }

    /// The entries of the interrupt table that those bindings had.
    pub open spec fn entries_unbound(self, i: int, n: nat) -> Seq<u16>
        decreases n,
    {
        if n == 0 {
            Seq::empty()
        } else if self.irqs[n - 1].used && self.irqs[n - 1].device == i {
            self.entries_unbound(i, (n - 1) as nat).push(self.irqs[n - 1].entry)
        } else {
            self.entries_unbound(i, (n - 1) as nat)
        }
    }

    /// The machine once those of the first `n` register mappings that belong to
    /// a device are withdrawn.
    pub open spec fn windows_withdrawn(self, i: int, n: nat) -> MachineModel
        decreases n,
    {
        if n == 0 {
            self
        } else {
            let before = self.windows_withdrawn(i, (n - 1) as nat);
            if before.device_maps[n - 1].used && before.device_maps[n - 1].device == i {
                before.device_map_withdrawn(n - 1).0
            } else {
                before
            }
        }
    }

    /// The machine once those of the first `n` DMA grants that belong to a device
    /// are revoked.
    pub open spec fn grants_revoked(self, i: int, n: nat) -> MachineModel
        decreases n,
    {
        if n == 0 {
            self
        } else {
            let before = self.grants_revoked(i, (n - 1) as nat);
            if before.dma_grants[n - 1].used && before.dma_grants[n - 1].device == i {
                before.grant_revoked(n - 1)
            } else {
                before
            }
        }
    }

    /// The machine once a device that confirmed its reset is ready again, in a
    /// new session.
    pub open spec fn device_reset(self, i: int) -> MachineModel {
        let quiet = self.with_device(i, Device { bus_master: false, ..self.devices[i] });
        let bare = quiet.irqs_unbound(i, MAX_IRQ_BINDINGS as nat).windows_withdrawn(
            i,
            MAX_DEVICE_MAPS as nat,
        ).grants_revoked(i, MAX_DMA_GRANTS as nat);
        bare.with_device(
            i,
            Device {
                session: next_session(bare.devices[i].session),
                state: State::Ready,
                ..bare.devices[i]
            },
        )
    }
}

/// The session after a reset: the next number, never zero.
pub open spec fn next_session(session: u32) -> u32 {
    if session == u32::MAX {
        1
    } else {
        (session + 1) as u32
    }
}

/// A device that is being stopped, and where the kernel reaches it.
#[derive(Clone, Copy, Debug, PartialEq, Eq, Structural)]
pub struct Stopping {
    /// The device.
    pub device: usize,
    /// The kernel's mapping of its common configuration.
    pub common_config: u64,
    /// Its function.
    pub bdf: u32,
}

/// Closes a device to its driver before it is stopped.
pub fn begin_reset(machine: &mut Machine, ctx: &Ctx, now: u64) -> (result: Result<
    Stopping,
    Status,
>)
    requires
        old(machine).wf(),
        caller_ok(*ctx),
    ensures
        final(machine).wf(),
        final(machine).same_tables(*old(machine)),
        match old(machine)@.resolved(
            ctx.domain as int,
            ctx.handle,
            object_type::DEVICE,
            right::DEVICE_CONTROL,
            now,
        ) {
            Err(code) => {
                &&& result == Err::<Stopping, Status>(code)
                &&& final(machine)@ == old(machine)@
            },
            Ok(cap) => {
                let i = cap.object.index as int;
                let device = old(machine)@.devices[i];
                &&& result == Ok::<Stopping, Status>(
                    Stopping {
                        device: i as usize,
                        common_config: device.common_config,
                        bdf: device.bdf,
                    },
                )
                &&& i < MAX_DEVICES
                &&& final(machine)@ == old(machine)@.with_device(
                    i,
                    Device { state: State::Stopping, ..device },
                )
            },
        },
{
    let cap = match resolve(
        machine,
        ctx.domain,
        ctx.handle,
        object_type::DEVICE,
        right::DEVICE_CONTROL,
        now,
    ) {
        Err(code) => {
            return Err(code);
        },
        Ok(cap) => cap,
    };
    assert(cap.object.kind == ObjKind::Device);
    let i: usize = cap.object.index as usize;
    let device = machine.device(i);
    machine.set_device(i, Device { state: State::Stopping, ..device });
    Ok(Stopping { device: i, common_config: device.common_config, bdf: device.bdf })
}

/// A device that was reset.
pub struct Restarted {
    /// Its state.
    pub info: DeviceInfo,
    /// Entries of its interrupt table that the kernel has to mask.
    pub masked: Vec<u16>,
}

/// Unbinds the interrupts of a device; returns the entries they had.
fn unbind_irqs(machine: &mut Machine, i: usize) -> (masked: Vec<u16>)
    requires
        old(machine).wf(),
        i < MAX_DEVICES,
    ensures
        final(machine).wf(),
        final(machine).same_tables(*old(machine)),
        final(machine)@ == old(machine)@.irqs_unbound(i as int, MAX_IRQ_BINDINGS as nat),
        masked@ == old(machine)@.entries_unbound(i as int, MAX_IRQ_BINDINGS as nat),
{
    let mut masked: Vec<u16> = Vec::new();
    proof {
        machine.wf_sized();
    }
    for k in 0..MAX_IRQ_BINDINGS
        invariant
            machine.wf(),
            machine.same_tables(*old(machine)),
            machine@ == old(machine)@.irqs_unbound(i as int, k as nat),
            machine@.irqs.len() == MAX_IRQ_BINDINGS,
            forall|j: int|
                k <= j < MAX_IRQ_BINDINGS ==> #[trigger] machine@.irqs[j] == old(
                    machine,
                )@.irqs[j],
            masked@ == old(machine)@.entries_unbound(i as int, k as nat),
    {
        let binding = machine.irq(k);
        if binding.used && binding.device as usize == i {
            masked.push(binding.entry);
            machine.set_irq(k, IrqBinding::empty());
        }
    }
    masked
}

/// Takes back everything a stopped device could reach and starts a new session,
/// if the device confirmed that it stopped.
///
/// A device that does not confirm stays where it is, keeps every grant, and is
/// reported as an incomplete drain: a timeout is not a successful withdrawal.
pub fn finish_reset(machine: &mut Machine, i: usize, confirmed: bool) -> (result: Result<
    Restarted,
    Status,
>)
    requires
        old(machine).wf(),
        i < MAX_DEVICES,
    ensures
        final(machine).wf(),
        if !confirmed {
            &&& result matches Err(code) && code == Status::DrainIncomplete
            &&& final(machine)@ == old(machine)@
        } else {
            &&& final(machine)@ == old(machine)@.device_reset(i as int)
            &&& result matches Ok(restarted) && {
                &&& restarted.info == final(machine)@.device_info(i as int)
                &&& restarted.masked@ == old(machine)@.entries_unbound(
                    i as int,
                    MAX_IRQ_BINDINGS as nat,
                )
            }
        },
{
    if !confirmed {
        return Err(Status::DrainIncomplete);
    }
    let device = machine.device(i);
    let ghost first = machine@;
    machine.set_device(i, Device { bus_master: false, ..device });
    proof {
        entries_depend_on_irqs(first, machine@, i as int, MAX_IRQ_BINDINGS as nat);
    }
    let masked = unbind_irqs(machine, i);
    let ghost unbound = machine@;
    for k in 0..MAX_DEVICE_MAPS
        invariant
            machine.wf(),
            machine@ == unbound.windows_withdrawn(i as int, k as nat),
    {
        let record = machine.device_map(k);
        if record.used && record.device as usize == i {
            withdraw_device_map(machine, k);
        }
    }
    let ghost withdrawn = machine@;
    for k in 0..MAX_DMA_GRANTS
        invariant
            machine.wf(),
            machine@ == withdrawn.grants_revoked(i as int, k as nat),
    {
        let grant = machine.dma_grant(k);
        if grant.used && grant.device as usize == i {
            revoke_grant(machine, k);
        }
    }
    let device = machine.device(i);
    let session: u32 = if device.session == u32::MAX {
        1
    } else {
        device.session + 1
    };
    machine.set_device(i, Device { session, state: State::Ready, ..device });
    Ok(Restarted { info: describe(machine, i), masked })
}

/// Which entries were bound depends on the bindings alone.
proof fn entries_depend_on_irqs(a: MachineModel, b: MachineModel, i: int, n: nat)
    requires
        a.irqs == b.irqs,
    ensures
        a.entries_unbound(i, n) == b.entries_unbound(i, n),
    decreases n,
{
    if n > 0 {
        entries_depend_on_irqs(a, b, i, (n - 1) as nat);
    }
}

/// The answer to a reset, once processors have acknowledged or not.
pub fn reset_answer(session: u32, acknowledged: bool) -> (result: Result<u64, Status>)
    ensures
        result == if acknowledged {
            Ok::<u64, Status>(session as u64)
        } else {
            Err::<u64, Status>(Status::DrainIncomplete)
        },
{
    if acknowledged {
        Ok(session as u64)
    } else {
        Err(Status::DrainIncomplete)
    }
}

/// Withdrawing windows and revoking grants leaves the session of a device.
proof fn clearing_keeps_session(m: MachineModel, i: int, n: nat)
    requires
        m.devices.len() == MAX_DEVICES,
        0 <= i < MAX_DEVICES,
    ensures
        m.irqs_unbound(i, n).devices == m.devices,
        m.grants_revoked(i, n).devices == m.devices,
        m.windows_withdrawn(i, n).devices.len() == MAX_DEVICES,
        m.windows_withdrawn(i, n).devices[i].session == m.devices[i].session,
    decreases n,
{
    if n > 0 {
        clearing_keeps_session(m, i, (n - 1) as nat);
        let before = m.windows_withdrawn(i, (n - 1) as nat);
        let record = before.device_maps[n - 1];
        let d = record.domain as int;
        crate::api::memops::unmapping_keeps_tables(
            before,
            before.root_of(d),
            record.vaddr,
            record.pages as nat,
        );
    }
}

/// A reset ends the session: the number a driver held is not accepted after it.
pub proof fn ended_sessions_are_refused(m: MachineModel, i: int)
    requires
        m.devices.len() == MAX_DEVICES,
        0 <= i < MAX_DEVICES,
        m.devices[i].session != 0,
    ensures
        m.device_reset(i).devices[i].session == next_session(m.devices[i].session),
        !m.device_reset(i).is_session(i, m.devices[i].session),
{
    let quiet = m.with_device(i, Device { bus_master: false, ..m.devices[i] });
    clearing_keeps_session(quiet, i, MAX_IRQ_BINDINGS as nat);
    let unbound = quiet.irqs_unbound(i, MAX_IRQ_BINDINGS as nat);
    clearing_keeps_session(unbound, i, MAX_DEVICE_MAPS as nat);
    let withdrawn = unbound.windows_withdrawn(i, MAX_DEVICE_MAPS as nat);
    clearing_keeps_session(withdrawn, i, MAX_DMA_GRANTS as nat);
}

} // verus!
