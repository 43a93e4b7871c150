//! A machine in which nothing has happened yet, and the address space the
//! kernel itself runs in.

use vstd::prelude::*;

use crate::arch::x86_64::paging::{has_kernel_slots, rooted, uses_translate_nothing, AddressSpace};
use crate::ctrl::{ControlLog, LogModel, ReceiptRecord};
use crate::device::{Device, DmaGrant, IrqBinding};
use crate::events::{Signal, Timer};
use crate::ipc::{Endpoint, Invocation, Message};
use crate::kstack::{stack_ok, stack_page, stacks_ok};
use crate::layout::KSTACK_PAGES;
use crate::limits::{
    MAX_CAPS, MAX_CONTROL_LOGS, MAX_CPUS, MAX_DEVICES, MAX_DEVICE_MAPS, MAX_DMA_GRANTS,
    MAX_DOMAINS, MAX_ENDPOINTS, MAX_GRANTS, MAX_INVOCATIONS, MAX_IRQ_BINDINGS, MAX_MAPS,
    MAX_MEMORY_OBJECTS, MAX_MESSAGES, MAX_SCOPES, MAX_SIGNALS, MAX_THREADS, MAX_TIMERS,
};
use crate::memobj::{MapRecord, MemoryObject};
use crate::mm::{
    count_use, quarantine_drained, run_reclaimed, use_is_small, FrameAllocator, FrameUse, Owner,
    MAX_FRAMES, PHYSICAL_FRAMES,
};
use crate::obj::{CapEntry, Grant};
use crate::page_table::lookup;
use crate::scope::Scope;
use crate::state::{translations, Cpu, Domain, Machine, MachineModel, Thread};

verus! {

/// `n` copies of a value.
pub open spec fn copies<T>(value: T, n: int) -> Seq<T> {
    Seq::new(n as nat, |i: int| value)
}

fn filled<T: Copy>(value: T, n: usize) -> (table: Vec<T>)
    ensures
        table@ == copies(value, n as int),
{
    let mut table: Vec<T> = Vec::new();
    for i in 0..n
        invariant
            table@ == copies(value, i as int),
    {
        table.push(value);
        assert(table@ =~= copies(value, i + 1));
    }
    table
}

/// A log nobody has set up.
pub open spec fn blank_log() -> LogModel {
    LogModel {
        used: false,
        generation: 0,
        id: 0,
        owner_scope: 0,
        live: Seq::<ReceiptRecord>::empty(),
        next_sequence: 1,
        lost: 0,
        coalesced: 0,
        pending: 0,
        refs: 0,
    }
}

/// A processor that does not take part.
pub open spec fn blank_cpu() -> Cpu {
    Cpu { online: false, flushed: 0, space: None, current: None, leaving: None }
}

impl MachineModel {
    /// A machine with these frames in which nothing has happened.
    pub open spec fn blank(
        uses: Seq<FrameUse>,
        pages: Map<(int, u64), (nat, u64)>,
        boot_epoch: u64,
    ) -> MachineModel {
        MachineModel {
            scopes: copies(Scope::empty_spec(0), MAX_SCOPES as int),
            grants: copies(Grant::empty_spec(), MAX_GRANTS as int),
            grant_hint: 0,
            domains: copies(Domain::empty_spec(0), MAX_DOMAINS as int),
            caps: copies(CapEntry::empty_spec(), MAX_DOMAINS * MAX_CAPS),
            threads: copies(Thread::empty_spec(), MAX_THREADS as int),
            kstacks: copies(false, MAX_THREADS as int),
            memories: copies(MemoryObject::empty_spec(), MAX_MEMORY_OBJECTS as int),
            maps: copies(MapRecord::empty_spec(), MAX_MAPS as int),
            endpoints: copies(Endpoint::empty_spec(), MAX_ENDPOINTS as int),
            queues: copies(Seq::<u16>::empty(), MAX_ENDPOINTS as int),
            messages: copies(Message::empty_spec(), MAX_MESSAGES as int),
            invocations: copies(Invocation::empty_spec(), MAX_INVOCATIONS as int),
            signals: copies(Signal::empty_spec(), MAX_SIGNALS as int),
            timers: copies(Timer::empty_spec(), MAX_TIMERS as int),
            logs: copies(blank_log(), MAX_CONTROL_LOGS as int),
            devices: copies(Device::empty_spec(), MAX_DEVICES as int),
            device_maps: copies(
                crate::device::MapRecord::empty_spec(),
                MAX_DEVICE_MAPS as int,
            ),
            dma_grants: copies(DmaGrant::empty_spec(), MAX_DMA_GRANTS as int),
            irqs: copies(IrqBinding::empty_spec(), MAX_IRQ_BINDINGS as int),
            cpus: copies(blank_cpu(), MAX_CPUS as int),
            uses,
            pages,
            kernel_space: None,
            next_id: 1,
            system_log: None,
            boot_epoch,
            published: 0,
            iommu_described: false,
            iommu_translating: false,
            delivered: 0,
            unclaimed: 0,
            user_faults: 0,
            dead_pending: false,
        }
    }
}

fn blank_logs() -> (logs: Vec<ControlLog>)
    ensures
        logs@.len() == MAX_CONTROL_LOGS,
        forall|i: int|
            0 <= i < logs@.len() ==> (#[trigger] logs@[i]).wf() && logs@[i]@ == blank_log(),
{
    let mut logs: Vec<ControlLog> = Vec::new();
    for i in 0..MAX_CONTROL_LOGS
        invariant
            logs@.len() == i,
            forall|k: int|
                0 <= k < logs@.len() ==> (#[trigger] logs@[k]).wf() && logs@[k]@ == blank_log(),
    {
        let log = ControlLog::empty();
        assert(log@ =~= blank_log());
        logs.push(log);
    }
    logs
}

fn blank_queues() -> (queues: Vec<Vec<u16>>)
    ensures
        queues@.len() == MAX_ENDPOINTS,
        forall|i: int|
            0 <= i < queues@.len() ==> (#[trigger] queues@[i])@ == Seq::<u16>::empty(),
{
    let mut queues: Vec<Vec<u16>> = Vec::new();
    for i in 0..MAX_ENDPOINTS
        invariant
            queues@.len() == i,
            forall|k: int|
                0 <= k < queues@.len() ==> (#[trigger] queues@[k])@ == Seq::<u16>::empty(),
    {
        let queue: Vec<u16> = Vec::new();
        queues.push(queue);
    }
    queues
}

/// No page of a kernel stack slot translates.
pub open spec fn stacks_are_clear(space: AddressSpace, frames: FrameAllocator) -> bool {
    forall|slot: int, page: int|
        0 <= slot < MAX_THREADS && -1 <= page < KSTACK_PAGES ==> space.translation(
            frames,
            #[trigger] stack_page(slot, page),
        ) is None
}

/// No frame is a table of a domain.
pub open spec fn no_domain_tables(frames: FrameAllocator) -> bool {
    forall|i: int|
        0 <= i < frames.uses_spec().len() ==> !(#[trigger] frames.uses_spec()[i] matches FrameUse::Table(
            Owner::Domain(_),
        ))
}

impl Machine {
    /// A machine with these frames in which nothing has happened. Identities
    /// count from one: zero names nothing.
    pub fn new(frames: FrameAllocator, boot_epoch: u64) -> (machine: Machine)
        requires
            frames.wf(),
            rooted(frames),
            no_domain_tables(frames),
        ensures
            machine.wf(),
            machine.frames == frames,
            machine@ == MachineModel::blank(
                frames.uses_spec(),
                translations(frames.contents(), frames.labels_spec()),
                boot_epoch,
            ),
    {
        let machine = Machine {
            scopes: filled(Scope::empty(0), MAX_SCOPES),
            grants: filled(Grant::empty(), MAX_GRANTS),
            grant_hint: 0,
            domains: filled(Domain::empty(0), MAX_DOMAINS),
            caps: filled(CapEntry::empty(), MAX_DOMAINS * MAX_CAPS),
            threads: filled(Thread::empty(), MAX_THREADS),
            kstacks: filled(false, MAX_THREADS),
            memories: filled(MemoryObject::empty(), MAX_MEMORY_OBJECTS),
            maps: filled(MapRecord::empty(), MAX_MAPS),
            endpoints: filled(Endpoint::empty(), MAX_ENDPOINTS),
            queues: blank_queues(),
            messages: filled(Message::empty(), MAX_MESSAGES),
            invocations: filled(Invocation::empty(), MAX_INVOCATIONS),
            signals: filled(Signal::empty(), MAX_SIGNALS),
            timers: filled(Timer::empty(), MAX_TIMERS),
            logs: blank_logs(),
            devices: filled(Device::empty(), MAX_DEVICES),
            device_maps: filled(crate::device::MapRecord::empty(), MAX_DEVICE_MAPS),
            dma_grants: filled(DmaGrant::empty(), MAX_DMA_GRANTS),
            irqs: filled(IrqBinding::empty(), MAX_IRQ_BINDINGS),
            cpus: filled(
                Cpu { online: false, flushed: 0, space: None, current: None, leaving: None },
                MAX_CPUS,
            ),
            frames,
            kernel_space: None,
            next_id: 1,
            system_log: None,
            boot_epoch,
            published: 0,
            iommu_described: false,
            iommu_translating: false,
            delivered: 0,
            unclaimed: 0,
            user_faults: 0,
            dead_pending: false,
        };
        proof {
            let model = MachineModel::blank(
                frames.uses_spec(),
                translations(frames.contents(), frames.labels_spec()),
                boot_epoch,
            );
            assert(machine@.queues =~= model.queues);
            assert(machine@.logs =~= model.logs);
            assert(machine@ =~= model);
            reveal(Machine::wf_but);
            reveal(stacks_ok);
            assert(machine@.backing().stands()) by {
                reveal(crate::backing::Backing::stands);
                assert forall|o: int| 0 <= o < machine@.memories.len() implies (
                #[trigger] machine@.memories[o]).map_count >= crate::backing::count_maps(
                    machine@.maps,
                    o,
                ) by {
                    crate::backing::unmapped_counts_none(machine@.maps, o);
                }
            }
        }
        machine
    }

    /// Adopts the address space the kernel runs in.
    pub fn adopt_kernel_space(&mut self, space: &AddressSpace)
        requires
            old(self).wf(),
            old(self)@.kernel_space is None,
            space.lives_in(old(self).frames),
            has_kernel_slots(old(self).frames, space.root.number as int),
            forall|d: int|
                0 <= d < MAX_DOMAINS ==> (#[trigger] old(self)@.domains[d]).space is None,
            forall|slot: int|
                0 <= slot < MAX_THREADS ==> !(#[trigger] old(self)@.kstacks[slot]),
            stacks_are_clear(*space, old(self).frames),
        ensures
            final(self).wf(),
            final(self).same_tables(*old(self)),
            final(self)@ == (MachineModel { kernel_space: Some(space.root), ..old(self)@ }),
    {
        proof {
            reveal(Machine::wf_but);
            assert forall|d: int| 0 <= d < self.domains@.len() implies (
            #[trigger] self.domains@[d]).space is None by {
                assert(self@.domains[d].space is None);
            }
        }
        self.kernel_space = Some(space.root);
        proof {
            reveal(stacks_ok);
            assert forall|slot: int| 0 <= slot < MAX_THREADS implies #[trigger] stack_ok(
                self.frames.memory@,
                space.root.number as int,
                slot,
                self.kstacks@[slot],
            ) by {
                assert(!old(self)@.kstacks[slot]);
                let guard = stack_page(slot, -1);
                assert(space.translation(self.frames, stack_page(slot, -1)) is None);
                assert forall|page: int| 0 <= page < KSTACK_PAGES implies lookup(
                    0,
                    self.frames.memory@,
                    space.root.number as int,
                    3,
                    #[trigger] stack_page(slot, page),
                ) is None by {
                    assert(space.translation(self.frames, stack_page(slot, page)) is None);
                }
            }
        }
        assert(self@ =~= (MachineModel { kernel_space: Some(space.root), ..old(self)@ }));
    }

    /// Makes the reserved frames of a run available; returns how many there
    /// were.
    pub fn reclaim(&mut self, first: u64, pages: u64) -> (count: u64)
        requires
            old(self).wf(),
            first + pages <= PHYSICAL_FRAMES,
        ensures
            final(self).wf(),
            final(self).same_tables(*old(self)),
            final(self)@ == (MachineModel {
                uses: run_reclaimed(old(self)@.uses, first as int, pages as int),
                ..old(self)@
            }),
            count_use(final(self)@.uses, FrameUse::Free) == count_use(
                old(self)@.uses,
                FrameUse::Free,
            ) + count,
            count <= MAX_FRAMES,
    {
        proof {
            reveal(Machine::wf_but);
        }
        let count: u64 = self.frames.reclaim(first, pages);
        proof {
            uses_translate_nothing(old(self).frames, self.frames);
            self.owned_tables_stay(*old(self));
            use_is_small(self@.uses, FrameUse::Free);
            assert(self@ =~= (MachineModel {
                uses: run_reclaimed(old(self)@.uses, first as int, pages as int),
                ..old(self)@
            }));
            self@.backing().stands_on(old(self)@.backing());
        }
        count
    }

    /// Makes the frames in quarantine available; returns how many there were.
    pub fn drain_quarantine(&mut self) -> (count: u64)
        requires
            old(self).wf(),
        ensures
            final(self).wf(),
            final(self).same_tables(*old(self)),
            final(self)@ == (MachineModel {
                uses: quarantine_drained(old(self)@.uses),
                ..old(self)@
            }),
            count_use(final(self)@.uses, FrameUse::Free) == count_use(
                old(self)@.uses,
                FrameUse::Free,
            ) + count,
    {
        proof {
            reveal(Machine::wf_but);
        }
        let count: u64 = self.frames.drain_quarantine();
        proof {
            uses_translate_nothing(old(self).frames, self.frames);
            self.owned_tables_stay(*old(self));
            assert(self@ =~= (MachineModel {
                uses: quarantine_drained(old(self)@.uses),
                ..old(self)@
            }));
            self@.backing().stands_on(old(self)@.backing());
        }
        count
    }

    /// Sets up a log in place `i`.
    pub fn put_log(&mut self, i: usize, log: ControlLog)
        requires
            old(self).wf(),
            i < MAX_CONTROL_LOGS,
            log.wf(),
        ensures
            final(self).wf(),
            final(self).same_tables(*old(self)),
            final(self)@ == old(self)@.with_log(i as int, log@),
    {
        proof {
            reveal(Machine::wf_but);
        }
        self.logs.set(i, log);
        assert(self@.logs =~= old(self)@.with_log(i as int, log@).logs);
        assert(self@ =~= old(self)@.with_log(i as int, log@));
    }

    /// Makes a log the one that covers admissions.
    pub fn set_system_log(&mut self, i: usize)
        requires
            old(self).wf(),
            i < MAX_CONTROL_LOGS,
        ensures
            final(self).wf(),
            final(self).same_tables(*old(self)),
            final(self)@ == (MachineModel { system_log: Some(i as u16), ..old(self)@ }),
    {
        proof {
            reveal(Machine::wf_but);
        }
        self.system_log = Some(i as u16);
        assert(self@ =~= (MachineModel { system_log: Some(i as u16), ..old(self)@ }));
    }
}

} // verus!
