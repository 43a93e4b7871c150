//! Devices: what of them a domain reaches, where their interrupts go, what memory
//! they reach, and what a reset leaves.

use vstd::prelude::*;

use crate::abi::request::{DeviceIrqRequest, DeviceMapRequest, DmaMapRequest, DmaUnmapRequest};
use crate::abi::{object_type, right};
use crate::api::devops::{
    bound_irqs, first_dma_grant, first_irq, free_vector, held_grants,
    vector_used,
};
use crate::api::{ctx_ok, Ctx};
use crate::arch::x86_64::paging::leaf_bits_say_the_rights;
use crate::bytes::array_of_holds;
use crate::device::{
    first_device, function_fault, siblings, windows_of, DmaGrant, Function, IrqBinding, Region,
    State as DeviceState, Transport, DEVICE_VECTOR_BASE, DEVICE_VECTOR_COUNT,
};
use crate::laws::authority::{a_handle_permits_what_its_entry_says, names_entry};
use crate::laws::events::{bits_kept_on, raising_coalesces, raising_touches_one_signal, same_bits};
use crate::laws::how_many;
use crate::laws::memory::{run_is_cut, run_is_in_order};
use crate::limits::{
    MAX_DEVICES, MAX_DEVICE_MAPS, MAX_DEVICE_REGIONS, MAX_DMA_GRANTS, MAX_DOMAINS,
    MAX_IRQ_BINDINGS, MAX_MEMORY_OBJECTS, MAX_SCOPES, MAX_SIGNALS,
};
use crate::memobj::{MemoryObject, State as MemState};
use crate::mm::Frame;
use crate::obj::{CapEntry, ObjKind};
use crate::page_table::{same_page, target, NO_EXECUTE, USER, WRITABLE};
use crate::scope::Resource;
use crate::spaces::{low_pages_are_numbered, USER_END};
use crate::state::{device_map_ok, Machine, MachineModel};

verus! {

/// A window shows the registers of its device and nothing else: page after page
/// the domain reaches the physical pages of that window from its start, to read
/// and write and never to execute. Every other address translates as before.
pub proof fn a_window_shows_its_registers(
    m: MachineModel,
    ctx: Ctx,
    request: DeviceMapRequest,
    d: int,
    w: u64,
)
    requires
        m.wf(),
        ctx_ok(ctx, ObjKind::Device),
        m.region_fault(ctx, request) is None,
        m.region_target(ctx, request) matches Ok(cap) && cap.object.index == d,
        0 <= d < MAX_DOMAINS,
        m.domains[d].space is Some,
        w < USER_END,
    ensures
        ({
            let after = m.region_mapped(ctx, request);
            let device = m.devices[ctx.cap.object.index as int];
            let region = device.regions@[request.region_index as int];
            let pages = region.length as int / 0x1000;
            let p = (w - request.vaddr) / 0x1000;
            &&& device.session == request.session
            &&& request.session != 0
            &&& request.region_index < device.region_count
            &&& request.vaddr % 0x1000 == 0
            &&& request.vaddr + region.length <= USER_END
            &&& if request.vaddr <= w < request.vaddr + pages * 0x1000 {
                after.translated(d, w) matches Some(e) && {
                    &&& target(e) == (region.phys as int / 0x1000 + p) * 0x1000
                    &&& e & USER != 0
                    &&& e & WRITABLE != 0
                    &&& e & NO_EXECUTE != 0
                }
            } else {
                after.translated(d, w) == m.translated(d, w)
            }
        }),
{
    let i = ctx.cap.object.index as int;
    let region = m.devices[i].regions@[request.region_index as int];
    let after = m.region_mapped(ctx, request);
    assert(crate::state::device_ok(m.devices[i]));
    assert(crate::device::region_ok(region));
    let base = Frame { number: region.phys / 0x1000 };
    let pages = (region.length / 0x1000) as nat;
    let rights = crate::api::devops::register_rights();
    run_is_in_order(m.pages, m.root_of(d), request.vaddr, base, rights, pages, w);
    if request.vaddr <= w < request.vaddr + pages * 0x1000 {
        let p = (w - request.vaddr) / 0x1000;
        assert(0 <= p < pages);
        leaf_bits_say_the_rights(((base.number + p) * 0x1000) as u64, rights);
    }
}

/// An interrupt is routed to the signal the request names under a vector no other
/// binding uses. No other binding changes.
pub proof fn an_interrupt_has_a_vector_of_its_own(m: MachineModel, ctx: Ctx, request: DeviceIrqRequest)
    requires
        m.wf(),
        ctx_ok(ctx, ObjKind::Device),
        m.irq_fault(ctx, request) is None,
    ensures
        ({
            let after = m.irq_bound(ctx, request);
            let i = ctx.cap.object.index as int;
            exists|k: int, entry: CapEntry|
                {
                    let made = #[trigger] after.irqs[k];
                    &&& #[trigger] names_entry(
                        m,
                        ctx.domain as int,
                        request.signal_handle,
                        object_type::SIGNAL,
                        right::SIGNAL_RAISE,
                        ctx.now,
                        entry,
                    )
                    &&& 0 <= k < MAX_IRQ_BINDINGS
                    &&& !m.irqs[k].used
                    &&& made.used
                    &&& made.device == i
                    &&& made.device_generation == m.devices[i].generation
                    &&& made.session == request.session
                    &&& made.entry == request.vector_index
                    &&& made.signal == entry.object.index
                    &&& made.signal_generation == entry.object.generation
                    &&& made.bits == request.bits
                    &&& DEVICE_VECTOR_BASE <= made.vector < DEVICE_VECTOR_BASE
                        + DEVICE_VECTOR_COUNT
                    &&& forall|j: int|
                        0 <= j < MAX_IRQ_BINDINGS && j != k ==> {
                            &&& #[trigger] after.irqs[j] == m.irqs[j]
                            &&& m.irqs[j].used ==> m.irqs[j].vector != made.vector
                            &&& m.irqs[j].used && m.irqs[j].device == i ==> m.irqs[j].entry
                                != request.vector_index
                        }
                }
        }),
{
    let i = ctx.cap.object.index as int;
    a_handle_permits_what_its_entry_says(
        m,
        ctx.domain as int,
        request.signal_handle,
        object_type::SIGNAL,
        right::SIGNAL_RAISE,
        ctx.now,
    );
    let signal = m.irq_signal(ctx, request)->Ok_0;
    let entry = choose|entry: CapEntry|
        {
            &&& #[trigger] names_entry(
                m,
                ctx.domain as int,
                request.signal_handle,
                object_type::SIGNAL,
                right::SIGNAL_RAISE,
                ctx.now,
                entry,
            )
            &&& signal.object == entry.object
            &&& signal.grant == entry.grant
            &&& signal.rights == m.grants[entry.grant as int].rights
        };
    let k = first_irq(m.irqs, 0);
    binding_is_free(m.irqs, 0);
    vector_is_free(m.irqs, DEVICE_VECTOR_BASE as int);
    let after = m.irq_bound(ctx, request);
    assert(after.irqs[k].used);
    assert forall|j: int| 0 <= j < MAX_IRQ_BINDINGS && j != k implies {
        &&& #[trigger] after.irqs[j] == m.irqs[j]
        &&& m.irqs[j].used ==> m.irqs[j].vector != after.irqs[k].vector
        &&& m.irqs[j].used && m.irqs[j].device == i ==> m.irqs[j].entry != request.vector_index
    } by {
        assert(m.irqs[j].used || !m.irqs[j].used);
    }
}

proof fn binding_is_free(irqs: Seq<IrqBinding>, from: int)
    requires
        0 <= from <= MAX_IRQ_BINDINGS,
    ensures
        ({
            let k = first_irq(irqs, from);
            &&& from <= k <= MAX_IRQ_BINDINGS
            &&& k < MAX_IRQ_BINDINGS ==> !irqs[k].used
        }),
    decreases MAX_IRQ_BINDINGS - from,
{
    if from < MAX_IRQ_BINDINGS && irqs[from].used {
        binding_is_free(irqs, from + 1);
    }
}

proof fn vector_is_free(irqs: Seq<IrqBinding>, from: int)
    requires
        DEVICE_VECTOR_BASE <= from <= DEVICE_VECTOR_BASE + DEVICE_VECTOR_COUNT,
    ensures
        free_vector(irqs, from) matches Some(v) ==> !vector_used(irqs, v) && from <= v
            < DEVICE_VECTOR_BASE + DEVICE_VECTOR_COUNT,
    decreases DEVICE_VECTOR_BASE + DEVICE_VECTOR_COUNT - from,
{
    if from < DEVICE_VECTOR_BASE + DEVICE_VECTOR_COUNT && vector_used(irqs, from as u8) {
        vector_is_free(irqs, from + 1);
    }
}

/// A binding answers to a vector: its device is there and still in the session
/// under which the binding was made.
pub open spec fn answers(m: MachineModel, k: int, vector: u8) -> bool {
    let binding = m.irqs[k];
    let device = m.devices[binding.device as int];
    &&& binding.used
    &&& binding.vector == vector
    &&& device.used
    &&& device.generation == binding.device_generation
    &&& device.session == binding.session
}

/// What became of binding `k` when the first `n` were asked: one that answers has
/// its bits pending on its live signal, any other is as it was.
pub open spec fn was_asked(
    m: MachineModel,
    after: MachineModel,
    vector: u8,
    n: int,
    k: int,
) -> bool {
    let before = m.irqs[k];
    let s = before.signal as int;
    if k < n && answers(m, k, vector) {
        &&& after.irqs[k] == (IrqBinding { deliveries: after.irqs[k].deliveries, ..before })
        &&& before.deliveries < u64::MAX ==> after.irqs[k].deliveries == before.deliveries + 1
        &&& m.signals[s].used && m.signals[s].generation == before.signal_generation
            ==> after.signals[s].bits & before.bits == before.bits
    } else {
        after.irqs[k] == before
    }
}

/// An interrupt reaches the bindings of its vector that are still of their
/// device's session and no others: a late one raises nothing. No pending bit of
/// any signal is lost, and no device, mapping or grant changes.
pub proof fn an_interrupt_reaches_its_bindings(m: MachineModel, vector: u8, n: int)
    requires
        m.wf(),
        0 <= n <= MAX_IRQ_BINDINGS,
    ensures
        ({
            let after = m.interrupted(vector, n as nat).0;
            &&& after == (MachineModel {
                irqs: after.irqs,
                signals: after.signals,
                threads: after.threads,
                delivered: after.delivered,
                ..m
            })
            &&& after.irqs.len() == m.irqs.len()
            &&& after.signals.len() == m.signals.len()
            &&& after.threads.len() == m.threads.len()
        }),
        forall|k: int|
            0 <= k < MAX_IRQ_BINDINGS ==> #[trigger] was_asked(
                m,
                m.interrupted(vector, n as nat).0,
                vector,
                n,
                k,
            ),
        ({
            let after = m.interrupted(vector, n as nat).0;
            forall|s: int|
                0 <= s < MAX_SIGNALS ==> {
                    &&& (#[trigger] after.signals[s]).bits & m.signals[s].bits == m.signals[s].bits
                    &&& after.signals[s].used == m.signals[s].used
                    &&& after.signals[s].generation == m.signals[s].generation
                }
        }),
        m.interrupted(vector, n as nat).1 == exists|k: int|
            0 <= k < n && #[trigger] answers(m, k, vector),
        (forall|k: int| 0 <= k < n ==> !#[trigger] answers(m, k, vector)) ==> m.interrupted(
            vector,
            n as nat,
        ).0 == m,
    decreases n,
{
    if n == 0 {
        assert forall|s: int| 0 <= s < MAX_SIGNALS implies (#[trigger] m.signals[s]).bits
            & m.signals[s].bits == m.signals[s].bits by {
            same_bits(m.signals[s].bits);
        }
    } else {
        an_interrupt_reaches_its_bindings(m, vector, n - 1);
        let (before, claimed) = m.interrupted(vector, (n - 1) as nat);
        let (after, _) = m.interrupted(vector, n as nat);
        assert(was_asked(m, before, vector, n - 1, n - 1));
        assert(before.is_due_irq(n - 1, vector) == answers(m, n - 1, vector));
        if answers(m, n - 1, vector) {
            let binding = m.irqs[n - 1];
            let i = binding.signal as int;
            assert(crate::state::irq_ok(m.irqs[n - 1]));
            let counted = before.with_irq(
                n - 1,
                IrqBinding { deliveries: after.irqs[n - 1].deliveries, ..binding },
            );
            if before.signals[i].used && before.signals[i].generation
                == binding.signal_generation {
                raising_coalesces(counted, i, binding.bits);
            }
            raising_touches_one_signal(counted, i, binding.signal_generation, binding.bits);
            assert forall|s: int| 0 <= s < MAX_SIGNALS implies {
                &&& (#[trigger] after.signals[s]).bits & m.signals[s].bits == m.signals[s].bits
                &&& after.signals[s].bits & before.signals[s].bits == before.signals[s].bits
                &&& after.signals[s].used == m.signals[s].used
                &&& after.signals[s].generation == m.signals[s].generation
            } by {
                same_bits(before.signals[s].bits);
                bits_kept_on(m.signals[s].bits, before.signals[s].bits, after.signals[s].bits);
            }
            assert forall|k: int| 0 <= k < MAX_IRQ_BINDINGS implies #[trigger] was_asked(
                m,
                after,
                vector,
                n,
                k,
            ) by {
                assert(was_asked(m, before, vector, n - 1, k));
                let b = m.irqs[k];
                assert(crate::state::irq_ok(m.irqs[k]));
                bits_kept_on(
                    b.bits,
                    before.signals[b.signal as int].bits,
                    after.signals[b.signal as int].bits,
                );
            }
        } else {
            assert forall|k: int| 0 <= k < MAX_IRQ_BINDINGS implies #[trigger] was_asked(
                m,
                after,
                vector,
                n,
                k,
            ) by {
                assert(was_asked(m, before, vector, n - 1, k));
            }
        }
    }
}

/// A device is let to the pages the request asks for and no others: they start
/// at page `offset_pages` of the object the handle names, lie in it, can be
/// written only while it is open for writing, and lie where the device can
/// address them. The object counts the grant and cannot go away under it.
pub proof fn a_device_reaches_the_pages_asked_for(m: MachineModel, ctx: Ctx, request: DmaMapRequest)
    requires
        m.wf(),
        ctx_ok(ctx, ObjKind::Device),
        m.dma_fault(ctx, request) is None,
    ensures
        ({
            let after = m.dma_mapped(ctx, request);
            let i = ctx.cap.object.index as int;
            exists|k: int, entry: CapEntry|
                {
                    let made = #[trigger] after.dma_grants[k];
                    let o = entry.object.index as int;
                    let object = m.memories[o];
                    &&& #[trigger] names_entry(
                        m,
                        ctx.domain as int,
                        request.memory_handle,
                        object_type::MEMORY,
                        request.rights,
                        ctx.now,
                        entry,
                    )
                    &&& 0 <= k < MAX_DMA_GRANTS
                    &&& !m.dma_grants[k].used
                    &&& made.used
                    &&& made.device == i
                    &&& made.session == request.session
                    &&& made.session == m.devices[i].session
                    &&& made.memory == o
                    &&& made.memory_generation == entry.object.generation
                    &&& made.offset_pages == request.offset_pages
                    &&& made.pages == request.page_count
                    &&& made.rights == request.rights
                    &&& made.iova == (object.base.number + request.offset_pages) * 0x1000
                    &&& request.page_count > 0
                    &&& request.offset_pages + request.page_count <= object.pages
                    &&& request.rights & right::MEMORY_WRITE != 0 ==> object.state
                        == MemState::Mutable
                    &&& after.memories[o] == (MemoryObject {
                        dma_grants: after.memories[o].dma_grants,
                        ..object
                    })
                    &&& object.dma_grants < u32::MAX ==> after.memories[o].dma_grants
                        == object.dma_grants + 1
                    &&& forall|j: int|
                        0 <= j < MAX_DMA_GRANTS && j != k ==> #[trigger] after.dma_grants[j]
                            == m.dma_grants[j]
                    &&& forall|j: int|
                        0 <= j < MAX_MEMORY_OBJECTS && j != o ==> #[trigger] after.memories[j]
                            == m.memories[j]
                    &&& after.pages == m.pages
                }
        }),
{
    a_handle_permits_what_its_entry_says(
        m,
        ctx.domain as int,
        request.memory_handle,
        object_type::MEMORY,
        request.rights,
        ctx.now,
    );
    let memory = m.dma_source(ctx, request)->Ok_0;
    let entry = choose|entry: CapEntry|
        {
            &&& #[trigger] names_entry(
                m,
                ctx.domain as int,
                request.memory_handle,
                object_type::MEMORY,
                request.rights,
                ctx.now,
                entry,
            )
            &&& memory.object == entry.object
            &&& memory.grant == entry.grant
            &&& memory.rights == m.grants[entry.grant as int].rights
        };
    let k = first_dma_grant(m.dma_grants, 0);
    grant_is_free(m.dma_grants, 0);
    let o = entry.object.index as int;
    assert(crate::state::memory_ok(m.memories[o]));
    let after = m.dma_mapped(ctx, request);
    assert(after.dma_grants[k].used);
}

proof fn grant_is_free(grants: Seq<DmaGrant>, from: int)
    requires
        0 <= from <= MAX_DMA_GRANTS,
    ensures
        ({
            let k = first_dma_grant(grants, from);
            &&& from <= k <= MAX_DMA_GRANTS
            &&& k < MAX_DMA_GRANTS ==> !grants[k].used
        }),
    decreases MAX_DMA_GRANTS - from,
{
    if from < MAX_DMA_GRANTS && grants[from].used {
        grant_is_free(grants, from + 1);
    }
}

/// A grant is taken from a device only while the device issues nothing, and the
/// one that is taken is the device's own at that address.
pub proof fn a_grant_is_revoked_from_a_quiet_device(
    m: MachineModel,
    ctx: Ctx,
    request: DmaUnmapRequest,
)
    requires
        m.wf(),
        ctx_ok(ctx, ObjKind::Device),
        m.revoke_fault(ctx, request) is None,
    ensures
        ({
            let i = ctx.cap.object.index as int;
            let k = m.named_grant(0, i, request.iova);
            let after = m.grant_revoked(k);
            let o = m.dma_grants[k].memory as int;
            &&& !m.devices[i].bus_master
            &&& m.devices[i].session == request.session
            &&& 0 <= k < MAX_DMA_GRANTS
            &&& m.dma_grants[k].used
            &&& m.dma_grants[k].device == i
            &&& m.dma_grants[k].iova == request.iova
            &&& !after.dma_grants[k].used
            &&& forall|j: int|
                0 <= j < MAX_DMA_GRANTS && j != k ==> #[trigger] after.dma_grants[j]
                    == m.dma_grants[j]
            &&& m.memories[o].generation == m.dma_grants[k].memory_generation
                && m.memories[o].dma_grants > 0 ==> after.memories[o].dma_grants
                == m.memories[o].dma_grants - 1
        }),
{
    let i = ctx.cap.object.index as int;
    grant_is_named(m, 0, i, request.iova);
    assert(crate::state::dma_grant_ok(m.dma_grants[m.named_grant(0, i, request.iova)]));
}

proof fn grant_is_named(m: MachineModel, from: int, i: int, iova: u64)
    requires
        0 <= from <= MAX_DMA_GRANTS,
    ensures
        ({
            let k = m.named_grant(from, i, iova);
            &&& from <= k <= MAX_DMA_GRANTS
            &&& k < MAX_DMA_GRANTS ==> m.dma_grants[k].used && m.dma_grants[k].device == i
                && m.dma_grants[k].iova == iova
        }),
    decreases MAX_DMA_GRANTS - from,
{
    if from < MAX_DMA_GRANTS && !m.is_named_grant(from, i, iova) {
        grant_is_named(m, from + 1, i, iova);
    }
}

proof fn unbinding_frees_its_own(m: MachineModel, i: int, n: nat)
    requires
        m.irqs.len() == MAX_IRQ_BINDINGS,
        n <= MAX_IRQ_BINDINGS,
    ensures
        ({
            let after = m.irqs_unbound(i, n);
            &&& after == (MachineModel { irqs: after.irqs, ..m })
            &&& after.irqs.len() == m.irqs.len()
            &&& forall|k: int|
                0 <= k < MAX_IRQ_BINDINGS ==> {
                    if k < n && m.irqs[k].used && m.irqs[k].device == i {
                        !(#[trigger] after.irqs[k]).used
                    } else {
                        after.irqs[k] == m.irqs[k]
                    }
                }
        }),
    decreases n,
{
    if n > 0 {
        unbinding_frees_its_own(m, i, (n - 1) as nat);
    }
}

proof fn revoking_frees_its_own(m: MachineModel, i: int, n: nat)
    requires
        m.dma_grants.len() == MAX_DMA_GRANTS,
        n <= MAX_DMA_GRANTS,
    ensures
        ({
            let after = m.grants_revoked(i, n);
            &&& after.irqs == m.irqs
            &&& after.device_maps == m.device_maps
            &&& after.devices == m.devices
            &&& after.dma_grants.len() == m.dma_grants.len()
            &&& forall|k: int|
                0 <= k < MAX_DMA_GRANTS ==> {
                    if k < n && m.dma_grants[k].used && m.dma_grants[k].device == i {
                        !(#[trigger] after.dma_grants[k]).used
                    } else {
                        after.dma_grants[k] == m.dma_grants[k]
                    }
                }
        }),
    decreases n,
{
    if n > 0 {
        revoking_frees_its_own(m, i, (n - 1) as nat);
        let before = m.grants_revoked(i, (n - 1) as nat);
        assert(before.dma_grants[n - 1] == m.dma_grants[n - 1]);
    }
}

proof fn cutting_keeps_tables(m: MachineModel, root: int, vaddr: u64, n: nat)
    ensures
        ({
            let after = m.unmap_pages(root, vaddr, n).0;
            after == (MachineModel { pages: after.pages, ..m })
        }),
    decreases n,
{
    if n > 0 {
        cutting_keeps_tables(m, root, vaddr, (n - 1) as nat);
    }
}

proof fn withdrawing_frees_its_own(m: MachineModel, i: int, n: nat)
    requires
        m.device_maps.len() == MAX_DEVICE_MAPS,
        m.devices.len() == MAX_DEVICES,
        forall|k: int|
            0 <= k < MAX_DEVICE_MAPS ==> (#[trigger] m.device_maps[k]).device < MAX_DEVICES,
        0 <= i < MAX_DEVICES,
        n <= MAX_DEVICE_MAPS,
    ensures
        ({
            let after = m.windows_withdrawn(i, n);
            &&& after.irqs == m.irqs
            &&& after.dma_grants == m.dma_grants
            &&& after.devices.len() == m.devices.len()
            &&& after.devices[i].session == m.devices[i].session
            &&& after.devices[i].bus_master == m.devices[i].bus_master
            &&& forall|k: int|
                0 <= k < MAX_DEVICES && k != i ==> #[trigger] after.devices[k] == m.devices[k]
            &&& after.device_maps.len() == m.device_maps.len()
            &&& forall|k: int|
                0 <= k < MAX_DEVICE_MAPS ==> {
                    if k < n && m.device_maps[k].used && m.device_maps[k].device == i {
                        !(#[trigger] after.device_maps[k]).used
                    } else {
                        after.device_maps[k] == m.device_maps[k]
                    }
                }
        }),
    decreases n,
{
    if n > 0 {
        withdrawing_frees_its_own(m, i, (n - 1) as nat);
        let before = m.windows_withdrawn(i, (n - 1) as nat);
        assert(before.device_maps[n - 1] == m.device_maps[n - 1]);
        let record = before.device_maps[n - 1];
        if record.used && record.device == i {
            cutting_keeps_tables(
                before,
                before.root_of(record.domain as int),
                record.vaddr,
                record.pages as nat,
            );
        }
    }
}

/// A reset leaves a device nothing of what it had: no interrupt of it is routed,
/// no window of it is mapped, it reaches no memory, and it no longer masters the
/// bus. Its session is another. What belongs to other devices is as it was.
pub proof fn a_reset_leaves_nothing(m: MachineModel, i: int)
    requires
        m.wf(),
        0 <= i < MAX_DEVICES,
    ensures
        ({
            let after = m.device_reset(i);
            &&& after.devices[i].session != m.devices[i].session
            &&& after.devices[i].session != 0
            &&& !after.devices[i].bus_master
            &&& forall|k: int|
                0 <= k < MAX_IRQ_BINDINGS ==> {
                    &&& !((#[trigger] after.irqs[k]).used && after.irqs[k].device == i)
                    &&& !(m.irqs[k].used && m.irqs[k].device == i) ==> after.irqs[k] == m.irqs[k]
                }
            &&& forall|k: int|
                0 <= k < MAX_DEVICE_MAPS ==> {
                    &&& !((#[trigger] after.device_maps[k]).used && after.device_maps[k].device
                        == i)
                    &&& !(m.device_maps[k].used && m.device_maps[k].device == i)
                        ==> after.device_maps[k] == m.device_maps[k]
                }
            &&& forall|k: int|
                0 <= k < MAX_DMA_GRANTS ==> {
                    &&& !((#[trigger] after.dma_grants[k]).used && after.dma_grants[k].device == i)
                    &&& !(m.dma_grants[k].used && m.dma_grants[k].device == i)
                        ==> after.dma_grants[k] == m.dma_grants[k]
                }
            &&& forall|k: int|
                0 <= k < MAX_DEVICES && k != i ==> #[trigger] after.devices[k] == m.devices[k]
        }),
{
    let quiet = m.with_device(
        i,
        crate::device::Device { bus_master: false, ..m.devices[i] },
    );
    unbinding_frees_its_own(quiet, i, MAX_IRQ_BINDINGS as nat);
    let deaf = quiet.irqs_unbound(i, MAX_IRQ_BINDINGS as nat);
    assert forall|k: int| 0 <= k < MAX_DEVICE_MAPS implies (#[trigger] deaf.device_maps[k]).device
        < MAX_DEVICES by {
        assert(crate::state::device_map_ok(m.device_maps[k]));
    }
    withdrawing_frees_its_own(deaf, i, MAX_DEVICE_MAPS as nat);
    let blind = deaf.windows_withdrawn(i, MAX_DEVICE_MAPS as nat);
    revoking_frees_its_own(blind, i, MAX_DMA_GRANTS as nat);
}

/// A device is let to memory under the strong name only where the hardware holds
/// it to what it was given: a remapping unit is described and translates, the
/// device is alone in its group, and it goes through the unit.
pub proof fn strong_isolation_is_enforced(
    device: crate::device::Device,
    described: bool,
    translating: bool,
)
    ensures
        device.profile_spec(described, translating).0 == crate::device::STRONG_IOMMU
            <==> described && translating && device.group_members <= 1 && device.access_platform,
{
}

/// A device is described as it stands: what it is, its session, how many of its
/// interrupts are routed and how often it was let to memory.
pub proof fn a_device_is_described_as_it_stands(m: MachineModel, i: int)
    requires
        m.wf(),
        0 <= i < MAX_DEVICES,
    ensures
        ({
            let device = m.devices[i];
            let info = m.device_info(i);
            &&& info.session == device.session
            &&& info.bdf == device.bdf
            &&& info.vendor_id == device.vendor
            &&& info.device_id == device.device_id
            &&& info.class_code == device.class
            &&& info.region_count == device.region_count
            &&& info.object_id == device.id
            &&& info.sponsor_scope_id == m.scopes[device.sponsor as int].id
            &&& info.label == device.label
            &&& (info.bus_master == 1) == device.bus_master
            &&& (info.access_platform == 1) == device.access_platform
            &&& info.dma_address_bits == device.dma_address_bits
            &&& info.irq_bound == how_many(
                |k: int| m.irqs[k].used && m.irqs[k].device == i,
                MAX_IRQ_BINDINGS as int,
            )
            &&& info.dma_grants == how_many(
                |k: int| m.dma_grants[k].used && m.dma_grants[k].device == i,
                MAX_DMA_GRANTS as int,
            )
        }),
{
    bindings_are_counted(m, i, MAX_IRQ_BINDINGS as int);
    grants_are_counted(m, i, MAX_DMA_GRANTS as int);
}

proof fn bindings_are_counted(m: MachineModel, i: int, n: int)
    requires
        0 <= n,
    ensures
        bound_irqs(m.irqs, i, n) == how_many(
            |k: int| m.irqs[k].used && m.irqs[k].device == i,
            n,
        ),
        bound_irqs(m.irqs, i, n) <= n,
    decreases n,
{
    if n > 0 {
        bindings_are_counted(m, i, n - 1);
    }
}

proof fn grants_are_counted(m: MachineModel, i: int, n: int)
    requires
        0 <= n,
    ensures
        held_grants(m.dma_grants, i, n) == how_many(
            |k: int| m.dma_grants[k].used && m.dma_grants[k].device == i,
            n,
        ),
        held_grants(m.dma_grants, i, n) <= n,
    decreases n,
{
    if n > 0 {
        grants_are_counted(m, i, n - 1);
    }
}

proof fn the_first_free_is_found(m: MachineModel, from: int)
    requires
        0 <= from <= MAX_DEVICES,
    ensures
        from <= first_device(m.devices, from) <= MAX_DEVICES,
        first_device(m.devices, from) < MAX_DEVICES ==> !m.devices[first_device(
            m.devices,
            from,
        )].used,
    decreases MAX_DEVICES - from,
{
    if from < MAX_DEVICES && m.devices[from].used {
        the_first_free_is_found(m, from + 1);
    }
}

/// A function that is assigned can be shown to a driver: each of its four structures
/// is there, lies whole in a memory window of the function, and is made of pages.
pub proof fn only_a_sound_function_is_assigned(
    m: MachineModel,
    function: Function,
    transport: Transport,
    sponsor: u16,
    kind: int,
)
    requires
        m.can_assign(function, transport, sponsor),
        1 <= kind <= 4,
    ensures
        function.msix is Some,
        transport.version_1,
        function.virtio@[kind] is Some,
        ({
            let cap = function.virtio@[kind]->0;
            let bar = function.bars@[cap.bar as int];
            &&& cap.bar < 6
            &&& bar.memory
            &&& 0 < cap.length
            &&& cap.offset + cap.length <= bar.length
            &&& cap.offset % 0x1000 == 0
            &&& cap.length % 0x1000 == 0
        }),
{
    reveal_with_fuel(function_fault, 6);
}

/// A function that is assigned becomes a device in a row that was free, with the
/// identity and the interrupts of that function. Its windows are the function's
/// four structures in order, each where its base register puts it. No other device
/// changes, and the sponsor bears it.
pub proof fn a_device_is_the_function_found(
    m: MachineModel,
    function: Function,
    transport: Transport,
    sponsor: u16,
    members: u32,
    k: int,
)
    requires
        m.wf(),
        function.wf(),
        sponsor < MAX_SCOPES,
        m.can_assign(function, transport, sponsor),
        0 <= k < 4,
    ensures
        ({
            let after = m.assigned(function, transport, sponsor, members);
            let i = first_device(m.devices, 0);
            let made = after.devices[i];
            let cap = function.virtio@[k + 1]->0;
            let window = made.regions@[k];
            &&& 0 <= i < MAX_DEVICES
            &&& !m.devices[i].used
            &&& made.used
            &&& made.id == m.next_id
            &&& after.next_id == m.next_id + 1
            &&& made.state == DeviceState::Ready
            &&& made.session == 1
            &&& made.sponsor == sponsor
            &&& made.bdf == function.bdf
            &&& made.vendor == function.vendor
            &&& made.device_id == function.device
            &&& made.class == function.class
            &&& made.msix == function.msix
            &&& made.msix_table == transport.msix_table
            &&& made.common_config == transport.common_config
            &&& made.access_platform == transport.access_platform
            &&& made.group_members == members
            &&& made.region_count == 4
            &&& window.kind == k + 1
            &&& window.bar == cap.bar
            &&& window.phys == (function.bars@[cap.bar as int].base + cap.offset) as u64
            &&& window.offset == cap.offset
            &&& window.length == cap.length
            &&& window.maps == 0
            &&& forall|j: int|
                0 <= j < MAX_DEVICES && j != i ==> #[trigger] after.devices[j] == m.devices[j]
        }),
        m.assigned(function, transport, sponsor, members).scopes == m.charge(
            sponsor,
            Resource::Metadata,
            1,
        ).scopes,
{
    the_first_free_is_found(m, 0);
    array_of_holds::<Region, MAX_DEVICE_REGIONS>(windows_of(function));
}

/// A function shares its isolation group with the functions of its slot: as many as
/// are found on that bus under that device number.
pub proof fn a_group_is_a_slot(functions: Seq<Function>, bdf: u32, n: int)
    ensures
        siblings(functions, bdf, n) == how_many(
            |j: int| functions[j].bdf / 8 == bdf / 8,
            n,
        ),
    decreases n,
{
    if n > 0 {
        a_group_is_a_slot(functions, bdf, n - 1);
    }
}

proof fn the_named_window(m: MachineModel, from: int, i: int, vaddr: u64)
    requires
        0 <= from <= MAX_DEVICE_MAPS,
    ensures
        from <= m.named_region(from, i, vaddr) <= MAX_DEVICE_MAPS,
        m.named_region(from, i, vaddr) < MAX_DEVICE_MAPS ==> {
            let record = m.device_maps[m.named_region(from, i, vaddr)];
            record.used && record.device == i && record.vaddr == vaddr
        },
        m.named_region(from, i, vaddr) == MAX_DEVICE_MAPS ==> forall|k: int|
            from <= k < MAX_DEVICE_MAPS ==> !((#[trigger] m.device_maps[k]).used
                && m.device_maps[k].device == i && m.device_maps[k].vaddr == vaddr),
    decreases MAX_DEVICE_MAPS - from,
{
    if from < MAX_DEVICE_MAPS && !m.is_named_region(from, i, vaddr) {
        the_named_window(m, from + 1, i, vaddr);
    }
}

/// A window that is taken back is the one of that device at that address: no address
/// of it reaches a register any more, every other address of its domain translates
/// as before, its record is free and every other record is as it was. A request of
/// another session, or one that names no window, changes nothing.
pub proof fn a_window_is_taken_back(
    m: Machine,
    ctx: Ctx,
    request: DeviceMapRequest,
    now: u64,
    w: u64,
)
    requires
        m.wf(),
        ctx.domain < MAX_DOMAINS,
        w < USER_END,
    ensures
        ({
            let (after, result) = m@.region_unmap_begun(ctx, request, now);
            let named = m@.resolved(
                ctx.domain as int,
                ctx.handle,
                object_type::DEVICE,
                right::DEVICE_MAP,
                now,
            );
            &&& result is Err ==> after == m@
            &&& result is Ok ==> {
                &&& named is Ok
                &&& request.session != 0
                &&& m@.devices[named->Ok_0.object.index as int].session == request.session
                &&& exists|k: int|
                    {
                        let record = m@.device_maps[k];
                        let d = record.domain as int;
                        let end = record.vaddr + record.pages * 0x1000;
                        &&& 0 <= k < MAX_DEVICE_MAPS
                        &&& record.used
                        &&& record.device == named->Ok_0.object.index
                        &&& record.vaddr == request.vaddr
                        &&& !(#[trigger] after.device_maps[k]).used
                        &&& forall|j: int|
                            0 <= j < MAX_DEVICE_MAPS && j != k ==> #[trigger] after.device_maps[j]
                                == m@.device_maps[j]
                        &&& m@.domains[d].space is Some && m@.domains[d].generation
                            == record.domain_generation ==> after.translated(d, w)
                            == if record.vaddr <= w < end {
                            None
                        } else {
                            m@.translated(d, w)
                        }
                    }
            }
        }),
{
    let (after, result) = m@.region_unmap_begun(ctx, request, now);
    if let Ok(cap) = m@.resolved(
        ctx.domain as int,
        ctx.handle,
        object_type::DEVICE,
        right::DEVICE_MAP,
        now,
    ) {
        let i = cap.object.index as int;
        let k = m@.named_region(0, i, request.vaddr);
        the_named_window(m@, 0, i, request.vaddr);
        if result is Ok {
            m.wf_sized();
            let record = m@.device_maps[k];
            let d = record.domain as int;
            let root = m@.root_of(d);
            assert(device_map_ok(m@.device_maps[k])) by {
                reveal(Machine::wf_but);
            }
            if m@.domains[d].space is Some && m@.domains[d].generation
                == record.domain_generation {
                assert forall|v: u64, u: u64|
                    v < USER_END && u < USER_END && same_page(v, u, 0) implies
                    #[trigger] m@.pages.contains_key((root, v))
                    == #[trigger] m@.pages.contains_key((root, u)) by {
                    low_pages_are_numbered(v, u);
                    m.page_translates_alike(d, v, u);
                }
                assert forall|v: u64| #[trigger] m@.pages.contains_key((root, v)) implies
                    m@.pages[(root, v)].0 == 0 by {
                    m.wf_stands();
                    reveal(crate::backing::Backing::stands);
                    assert(m@.backing().has_page(d, v));
                    assert(m@.backing().page_stands(d, v));
                }
                run_is_cut(m@, root, record.vaddr, record.pages as nat, w);
            }
            assert(!after.device_maps[k].used);
        }
    }
}

} // verus!
