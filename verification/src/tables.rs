//! One entry of the machine's tables at a time.
//!
//! Every entry that is written holds positions that lie in their tables, so a
//! machine whose tables are consistent stays so.

use vstd::prelude::*;

use crate::arch::x86_64::paging::uses_translate_nothing;
use crate::backing::{is_unwindowed, same_windows};
use crate::ctrl::{
    acknowledged, one_less, wrote_is_recorded, ControlLog, LogModel, ReceiptRecord,
};
use crate::device::{self, Device, DmaGrant, IrqBinding};
use crate::events::{Signal, Timer};
use crate::ipc::{Endpoint, Invocation, Message};
use crate::kstack::{stack_ok, stacks_ok};
use crate::limits::{
    MAX_CAPS, MAX_CONTROL_LOGS, MAX_CPUS, MAX_DEVICES, MAX_DEVICE_MAPS, MAX_DMA_GRANTS, MAX_DOMAINS,
    MAX_ENDPOINTS, MAX_GRANTS, MAX_INVOCATIONS, MAX_IRQ_BINDINGS, MAX_MAPS, MAX_MEMORY_OBJECTS,
    MAX_MESSAGES, MAX_OBJECT_PAGES, MAX_SCOPES, MAX_SIGNALS, MAX_THREADS, MAX_TIMERS,
};
use crate::memobj::{self, MemoryObject};
use crate::mm::{
    charged_is_small, count_use, first_run, first_run_is, has_run, is_free_run, quarantine_moved,
    run_given_back, run_is_zero, run_taken, Frame, FrameUse, Owner, MAX_FRAMES, PHYSICAL_FRAMES,
};
use crate::obj::{
    self, cap_at, cap_lookup, count_free, first_free, with_cap, without_cap, CapEntry, Grant,
    ObjRef,
};
use crate::scope::{
    self, charged, fenced, has_room, has_slot, open_within, parallelised, pending_spec, quiesced,
    released, scopes_wf, within, Pending, Resource, Scope,
};
use crate::state::{
    cap_ok, cpu_ok, device_map_ok, device_ok, dma_grant_ok, domain_ok, endpoint_ok, grant_ok,
    grant_ref_ok, invocation_ok, irq_ok, map_ok, memory_ok, message_ok, ref_ok, signal_ok,
    thread_ok, timer_ok, Cpu, Domain, Machine, MachineModel, Thread,
};

verus! {

impl MachineModel {
    /// The machine with another grant node in place `i`.
    pub open spec fn with_grant(self, i: int, v: Grant) -> MachineModel {
        MachineModel { grants: self.grants.update(i, v), ..self }
    }

    /// The machine with another domain in place `i`.
    pub open spec fn with_domain(self, i: int, v: Domain) -> MachineModel {
        MachineModel { domains: self.domains.update(i, v), ..self }
    }

    /// The machine with another thread in place `i`.
    pub open spec fn with_thread(self, i: int, v: Thread) -> MachineModel {
        MachineModel { threads: self.threads.update(i, v), ..self }
    }

    /// The machine with another memory object in place `i`.
    pub open spec fn with_memory(self, i: int, v: MemoryObject) -> MachineModel {
        MachineModel { memories: self.memories.update(i, v), ..self }
    }

    /// The machine with another mapping in place `i`.
    pub open spec fn with_map(self, i: int, v: memobj::MapRecord) -> MachineModel {
        MachineModel { maps: self.maps.update(i, v), ..self }
    }

    /// The machine with another endpoint in place `i`.
    pub open spec fn with_endpoint(self, i: int, v: Endpoint) -> MachineModel {
        MachineModel { endpoints: self.endpoints.update(i, v), ..self }
    }

    /// The machine with another message in place `i`.
    pub open spec fn with_message(self, i: int, v: Message) -> MachineModel {
        MachineModel { messages: self.messages.update(i, v), ..self }
    }

    /// The machine with another invocation in place `i`.
    pub open spec fn with_invocation(self, i: int, v: Invocation) -> MachineModel {
        MachineModel { invocations: self.invocations.update(i, v), ..self }
    }

    /// The machine with another signal in place `i`.
    pub open spec fn with_signal(self, i: int, v: Signal) -> MachineModel {
        MachineModel { signals: self.signals.update(i, v), ..self }
    }

    /// The machine with another timer in place `i`.
    pub open spec fn with_timer(self, i: int, v: Timer) -> MachineModel {
        MachineModel { timers: self.timers.update(i, v), ..self }
    }

    /// The machine with another device in place `i`.
    pub open spec fn with_device(self, i: int, v: Device) -> MachineModel {
        MachineModel { devices: self.devices.update(i, v), ..self }
    }

    /// The machine with another register mapping in place `i`.
    pub open spec fn with_device_map(self, i: int, v: device::MapRecord) -> MachineModel {
        MachineModel { device_maps: self.device_maps.update(i, v), ..self }
    }

    /// The machine with another DMA grant in place `i`.
    pub open spec fn with_dma_grant(self, i: int, v: DmaGrant) -> MachineModel {
        MachineModel { dma_grants: self.dma_grants.update(i, v), ..self }
    }

    /// The machine with another interrupt binding in place `i`.
    pub open spec fn with_irq(self, i: int, v: IrqBinding) -> MachineModel {
        MachineModel { irqs: self.irqs.update(i, v), ..self }
    }

    /// The machine with another processor in place `i`.
    pub open spec fn with_cpu(self, i: int, v: Cpu) -> MachineModel {
        MachineModel { cpus: self.cpus.update(i, v), ..self }
    }

    /// The machine with another kernel stack slot in place `i`.
    pub open spec fn with_kstack(self, i: int, v: bool) -> MachineModel {
        MachineModel { kstacks: self.kstacks.update(i, v), ..self }
    }

    /// The machine with another scope in place `i`.
    pub open spec fn with_scope(self, i: int, v: Scope) -> MachineModel {
        MachineModel { scopes: self.scopes.update(i, v), ..self }
    }

    /// The machine with another log in place `i`.
    pub open spec fn with_log(self, i: int, v: LogModel) -> MachineModel {
        MachineModel { logs: self.logs.update(i, v), ..self }
    }

    /// The machine with other messages queued on endpoint `i`.
    pub open spec fn with_queue(self, i: int, v: Seq<u16>) -> MachineModel {
        MachineModel { queues: self.queues.update(i, v), ..self }
    }

    /// The machine once `n` of `r` is charged to `s` and the scopes above it.
    pub open spec fn charge(self, s: u16, r: Resource, n: u64) -> MachineModel {
        MachineModel { scopes: charged(self.scopes, s as int, r, n as int), ..self }
    }

    /// The machine once `n` of `r` is given back.
    pub open spec fn uncharge(self, s: u16, r: Resource, n: u64) -> MachineModel {
        MachineModel { scopes: released(self.scopes, s as int, r, n), ..self }
    }

    /// `n` of `r` can be charged to `s`.
    pub open spec fn affords(self, s: u16, r: Resource, n: int) -> bool {
        has_room(self.scopes, s as int, r, n)
    }

    /// The machine once the frames of a run that `owner` holds are given back.
    pub open spec fn frames_back(
        self,
        base: Frame,
        pages: u64,
        owner: Owner,
        immediate: bool,
    ) -> MachineModel {
        MachineModel {
            uses: run_given_back(
                self.uses,
                base.number as int,
                pages as int,
                owner,
                if immediate {
                    FrameUse::Free
                } else {
                    FrameUse::Retired(owner)
                },
            ),
            ..self
        }
    }

    /// The machine once an interrupt has been counted.
    pub open spec fn interrupt_counted(self, claimed: bool) -> MachineModel {
        if claimed {
            MachineModel {
                delivered: if self.delivered < u64::MAX {
                    (self.delivered + 1) as u64
                } else {
                    u64::MAX
                },
                ..self
            }
        } else {
            MachineModel {
                unclaimed: if self.unclaimed < u64::MAX {
                    (self.unclaimed + 1) as u64
                } else {
                    u64::MAX
                },
                ..self
            }
        }
    }

    /// The machine once the next invalidation generation has been published.
    pub open spec fn publish(self) -> MachineModel {
        MachineModel {
            published: if self.published < u64::MAX {
                (self.published + 1) as u64
            } else {
                u64::MAX
            },
            ..self
        }
    }

    /// The machine once `owner` holds a run of frames.
    pub open spec fn frames_taken(self, base: int, pages: u64, owner: Owner) -> MachineModel {
        MachineModel { uses: run_taken(self.uses, base, pages as int, owner), ..self }
    }

    /// The handle a slot of a domain's table gets when it is filled next.
    pub open spec fn fresh_handle(self, domain: int, slot: int) -> u64 {
        crate::abi::handle_of(
            slot as u32,
            (self.caps[cap_at(domain, slot)].generation + 1) as u32,
        )
    }
}

impl Machine {
    /// The grant node in place `i`.
    pub fn grant(&self, i: usize) -> (v: Grant)
        requires
            self.wf(),
            i < MAX_GRANTS,
        ensures
            v == self@.grants[i as int],
            grant_ok(v),
    {
        proof {
            reveal(Machine::wf_but);
        }
        self.grants[i]
    }

    /// Puts another grant node in place `i`.
    pub fn set_grant(&mut self, i: usize, v: Grant)
        requires
            old(self).wf(),
            i < MAX_GRANTS,
            grant_ok(v),
        ensures
            final(self).wf(),
            final(self).same_tables(*old(self)),
            final(self)@ == old(self)@.with_grant(i as int, v),
    {
        proof {
            reveal(Machine::wf_but);
        }
        self.grants[i] = v;
        assert(self@ =~= old(self)@.with_grant(i as int, v));
    }

    /// The domain in place `i`.
    pub fn domain(&self, i: usize) -> (v: Domain)
        requires
            self.wf(),
            i < MAX_DOMAINS,
        ensures
            v == self@.domains[i as int],
            domain_ok(v),
    {
        proof {
            reveal(Machine::wf_but);
        }
        self.domains[i]
    }

    /// Puts another domain in place `i`.
    pub fn set_domain(&mut self, i: usize, v: Domain)
        requires
            old(self).wf(),
            i < MAX_DOMAINS,
            domain_ok(v),
            v.space == old(self)@.domains[i as int].space,
            v.space is Some ==> v.generation == old(self)@.domains[i as int].generation,
        ensures
            final(self).wf(),
            final(self).same_tables(*old(self)),
            final(self)@ == old(self)@.with_domain(i as int, v),
    {
        proof {
            reveal(Machine::wf_but);
        }
        self.domains[i] = v;
        proof {
            self.owned_tables_stay(*old(self));
        }
        assert(self@ =~= old(self)@.with_domain(i as int, v));
        proof {
            self@.backing().stands_on(old(self)@.backing());
        }
    }

    /// The thread in place `i`.
    pub fn thread(&self, i: usize) -> (v: Thread)
        requires
            self.wf(),
            i < MAX_THREADS,
        ensures
            v == self@.threads[i as int],
            thread_ok(v),
    {
        proof {
            reveal(Machine::wf_but);
        }
        self.threads[i]
    }

    /// Puts another thread in place `i`.
    pub fn set_thread(&mut self, i: usize, v: Thread)
        requires
            old(self).wf(),
            i < MAX_THREADS,
            thread_ok(v),
        ensures
            final(self).wf(),
            final(self).same_tables(*old(self)),
            final(self)@ == old(self)@.with_thread(i as int, v),
    {
        proof {
            reveal(Machine::wf_but);
        }
        self.threads[i] = v;
        assert(self@ =~= old(self)@.with_thread(i as int, v));
    }

    /// The memory object in place `i`.
    pub fn memory(&self, i: usize) -> (v: MemoryObject)
        requires
            self.wf(),
            i < MAX_MEMORY_OBJECTS,
        ensures
            v == self@.memories[i as int],
            memory_ok(v),
    {
        proof {
            reveal(Machine::wf_but);
        }
        self.memories[i]
    }

    /// Puts another memory object in place `i`.
    pub fn set_memory(&mut self, i: usize, v: MemoryObject)
        requires
            old(self).wf(),
            i < MAX_MEMORY_OBJECTS,
            memory_ok(v),
            old(self)@.backing().takes_memory(i as int, v),
        ensures
            final(self).wf(),
            final(self).same_tables(*old(self)),
            final(self)@ == old(self)@.with_memory(i as int, v),
    {
        proof {
            reveal(Machine::wf_but);
        }
        self.memories[i] = v;
        assert(self@ =~= old(self)@.with_memory(i as int, v));
        proof {
            self@.backing().stands_with_memory(old(self)@.backing(), i as int, v);
        }
    }

    /// The mapping in place `i`.
    pub fn map(&self, i: usize) -> (v: memobj::MapRecord)
        requires
            self.wf(),
            i < MAX_MAPS,
        ensures
            v == self@.maps[i as int],
            map_ok(v),
    {
        proof {
            reveal(Machine::wf_but);
        }
        self.maps[i]
    }

    /// Puts another mapping in place `i`.
    pub fn set_map(&mut self, i: usize, v: memobj::MapRecord)
        requires
            old(self).wf(),
            i < MAX_MAPS,
            map_ok(v),
            old(self)@.backing().with_map(i as int, v).stands(),
        ensures
            final(self).wf(),
            final(self).same_tables(*old(self)),
            final(self)@ == old(self)@.with_map(i as int, v),
    {
        proof {
            reveal(Machine::wf_but);
        }
        self.maps[i] = v;
        assert(self@ =~= old(self)@.with_map(i as int, v));
        assert(self@.backing() == old(self)@.backing().with_map(i as int, v));
    }

    /// The endpoint in place `i`.
    pub fn endpoint(&self, i: usize) -> (v: Endpoint)
        requires
            self.wf(),
            i < MAX_ENDPOINTS,
        ensures
            v == self@.endpoints[i as int],
            endpoint_ok(v),
    {
        proof {
            reveal(Machine::wf_but);
        }
        self.endpoints[i]
    }

    /// Puts another endpoint in place `i`.
    pub fn set_endpoint(&mut self, i: usize, v: Endpoint)
        requires
            old(self).wf(),
            i < MAX_ENDPOINTS,
            endpoint_ok(v),
        ensures
            final(self).wf(),
            final(self).same_tables(*old(self)),
            final(self)@ == old(self)@.with_endpoint(i as int, v),
    {
        proof {
            reveal(Machine::wf_but);
        }
        self.endpoints[i] = v;
        assert(self@ =~= old(self)@.with_endpoint(i as int, v));
    }

    /// The message in place `i`.
    pub fn message(&self, i: usize) -> (v: Message)
        requires
            self.wf(),
            i < MAX_MESSAGES,
        ensures
            v == self@.messages[i as int],
            message_ok(v),
    {
        proof {
            reveal(Machine::wf_but);
        }
        self.messages[i]
    }

    /// Puts another message in place `i`.
    pub fn set_message(&mut self, i: usize, v: Message)
        requires
            old(self).wf(),
            i < MAX_MESSAGES,
            message_ok(v),
        ensures
            final(self).wf(),
            final(self).same_tables(*old(self)),
            final(self)@ == old(self)@.with_message(i as int, v),
    {
        proof {
            reveal(Machine::wf_but);
        }
        self.messages[i] = v;
        assert(self@ =~= old(self)@.with_message(i as int, v));
    }

    /// The invocation in place `i`.
    pub fn invocation(&self, i: usize) -> (v: Invocation)
        requires
            self.wf(),
            i < MAX_INVOCATIONS,
        ensures
            v == self@.invocations[i as int],
            invocation_ok(v),
    {
        proof {
            reveal(Machine::wf_but);
        }
        self.invocations[i]
    }

    /// Puts another invocation in place `i`.
    pub fn set_invocation(&mut self, i: usize, v: Invocation)
        requires
            old(self).wf(),
            i < MAX_INVOCATIONS,
            invocation_ok(v),
        ensures
            final(self).wf(),
            final(self).same_tables(*old(self)),
            final(self)@ == old(self)@.with_invocation(i as int, v),
    {
        proof {
            reveal(Machine::wf_but);
        }
        self.invocations[i] = v;
        assert(self@ =~= old(self)@.with_invocation(i as int, v));
    }

    /// The signal in place `i`.
    pub fn signal(&self, i: usize) -> (v: Signal)
        requires
            self.wf(),
            i < MAX_SIGNALS,
        ensures
            v == self@.signals[i as int],
            signal_ok(v),
    {
        proof {
            reveal(Machine::wf_but);
        }
        self.signals[i]
    }

    /// Puts another signal in place `i`.
    pub fn set_signal(&mut self, i: usize, v: Signal)
        requires
            old(self).wf(),
            i < MAX_SIGNALS,
            signal_ok(v),
        ensures
            final(self).wf(),
            final(self).same_tables(*old(self)),
            final(self)@ == old(self)@.with_signal(i as int, v),
    {
        proof {
            reveal(Machine::wf_but);
        }
        self.signals[i] = v;
        assert(self@ =~= old(self)@.with_signal(i as int, v));
    }

    /// The timer in place `i`.
    pub fn timer(&self, i: usize) -> (v: Timer)
        requires
            self.wf(),
            i < MAX_TIMERS,
        ensures
            v == self@.timers[i as int],
            timer_ok(v),
    {
        proof {
            reveal(Machine::wf_but);
        }
        self.timers[i]
    }

    /// Puts another timer in place `i`.
    pub fn set_timer(&mut self, i: usize, v: Timer)
        requires
            old(self).wf(),
            i < MAX_TIMERS,
            timer_ok(v),
        ensures
            final(self).wf(),
            final(self).same_tables(*old(self)),
            final(self)@ == old(self)@.with_timer(i as int, v),
    {
        proof {
            reveal(Machine::wf_but);
        }
        self.timers[i] = v;
        assert(self@ =~= old(self)@.with_timer(i as int, v));
    }

    /// The device in place `i`.
    pub fn device(&self, i: usize) -> (v: Device)
        requires
            self.wf(),
            i < MAX_DEVICES,
        ensures
            v == self@.devices[i as int],
            device_ok(v),
    {
        proof {
            reveal(Machine::wf_but);
        }
        self.devices[i]
    }

    /// Puts another device in place `i`.
    pub fn set_device(&mut self, i: usize, v: Device)
        requires
            old(self).wf(),
            i < MAX_DEVICES,
            device_ok(v),
            same_windows(old(self)@.devices[i as int], v) || is_unwindowed(
                old(self)@.device_maps,
                i as int,
            ),
        ensures
            final(self).wf(),
            final(self).same_tables(*old(self)),
            final(self)@ == old(self)@.with_device(i as int, v),
    {
        proof {
            reveal(Machine::wf_but);
        }
        self.devices[i] = v;
        assert(self@ =~= old(self)@.with_device(i as int, v));
        proof {
            self@.backing().stands_with_device(old(self)@.backing(), i as int, v);
        }
    }

    /// The register mapping in place `i`.
    pub fn device_map(&self, i: usize) -> (v: device::MapRecord)
        requires
            self.wf(),
            i < MAX_DEVICE_MAPS,
        ensures
            v == self@.device_maps[i as int],
            device_map_ok(v),
    {
        proof {
            reveal(Machine::wf_but);
        }
        self.device_maps[i]
    }

    /// Puts another register mapping in place `i`.
    pub fn set_device_map(&mut self, i: usize, v: device::MapRecord)
        requires
            old(self).wf(),
            i < MAX_DEVICE_MAPS,
            device_map_ok(v),
            old(self)@.backing().with_window(i as int, v).stands(),
        ensures
            final(self).wf(),
            final(self).same_tables(*old(self)),
            final(self)@ == old(self)@.with_device_map(i as int, v),
    {
        proof {
            reveal(Machine::wf_but);
        }
        self.device_maps[i] = v;
        assert(self@ =~= old(self)@.with_device_map(i as int, v));
        assert(self@.backing() == old(self)@.backing().with_window(i as int, v));
    }

    /// The DMA grant in place `i`.
    pub fn dma_grant(&self, i: usize) -> (v: DmaGrant)
        requires
            self.wf(),
            i < MAX_DMA_GRANTS,
        ensures
            v == self@.dma_grants[i as int],
            dma_grant_ok(v),
    {
        proof {
            reveal(Machine::wf_but);
        }
        self.dma_grants[i]
    }

    /// Puts another DMA grant in place `i`.
    pub fn set_dma_grant(&mut self, i: usize, v: DmaGrant)
        requires
            old(self).wf(),
            i < MAX_DMA_GRANTS,
            dma_grant_ok(v),
        ensures
            final(self).wf(),
            final(self).same_tables(*old(self)),
            final(self)@ == old(self)@.with_dma_grant(i as int, v),
    {
        proof {
            reveal(Machine::wf_but);
        }
        self.dma_grants[i] = v;
        assert(self@ =~= old(self)@.with_dma_grant(i as int, v));
    }

    /// The interrupt binding in place `i`.
    pub fn irq(&self, i: usize) -> (v: IrqBinding)
        requires
            self.wf(),
            i < MAX_IRQ_BINDINGS,
        ensures
            v == self@.irqs[i as int],
            irq_ok(v),
    {
        proof {
            reveal(Machine::wf_but);
        }
        self.irqs[i]
    }

    /// Puts another interrupt binding in place `i`.
    pub fn set_irq(&mut self, i: usize, v: IrqBinding)
        requires
            old(self).wf(),
            i < MAX_IRQ_BINDINGS,
            irq_ok(v),
        ensures
            final(self).wf(),
            final(self).same_tables(*old(self)),
            final(self)@ == old(self)@.with_irq(i as int, v),
    {
        proof {
            reveal(Machine::wf_but);
        }
        self.irqs[i] = v;
        assert(self@ =~= old(self)@.with_irq(i as int, v));
    }

    /// The processor in place `i`.
    pub fn cpu(&self, i: usize) -> (v: Cpu)
        requires
            self.wf(),
            i < MAX_CPUS,
        ensures
            v == self@.cpus[i as int],
            cpu_ok(v),
    {
        proof {
            reveal(Machine::wf_but);
        }
        self.cpus[i]
    }

    /// Puts another processor in place `i`.
    pub fn set_cpu(&mut self, i: usize, v: Cpu)
        requires
            old(self).wf(),
            i < MAX_CPUS,
            cpu_ok(v),
        ensures
            final(self).wf(),
            final(self).same_tables(*old(self)),
            final(self)@ == old(self)@.with_cpu(i as int, v),
    {
        proof {
            reveal(Machine::wf_but);
        }
        self.cpus[i] = v;
        assert(self@ =~= old(self)@.with_cpu(i as int, v));
    }

    /// The kernel stack slot in place `i`.
    pub fn kstack(&self, i: usize) -> (v: bool)
        requires
            self.wf(),
            i < MAX_THREADS,
        ensures
            v == self@.kstacks[i as int],
    {
        proof {
            reveal(Machine::wf_but);
        }
        self.kstacks[i]
    }

    /// Puts another kernel stack slot in place `i`.
    pub fn set_kstack(&mut self, i: usize, v: bool)
        requires
            old(self).wf_but(i as int),
            i < MAX_THREADS,
            old(self)@.kernel_space matches Some(f) ==> stack_ok(
                old(self).frames.contents(),
                f.number as int,
                i as int,
                v,
            ),
        ensures
            final(self).wf(),
            final(self).same_tables(*old(self)),
            final(self)@ == old(self)@.with_kstack(i as int, v),
    {
        proof {
            reveal(Machine::wf_but);
        }
        self.kstacks[i] = v;
        proof {
            reveal(stacks_ok);
        }
        assert(self@ =~= old(self)@.with_kstack(i as int, v));
    }

    /// The scope in place `i`.
    pub fn scope(&self, i: usize) -> (v: Scope)
        requires
            self.wf(),
            i < MAX_SCOPES,
        ensures
            v == self@.scopes[i as int],
            v.parent matches Some(p) ==> p < MAX_SCOPES,
    {
        proof {
            reveal(Machine::wf_but);
        }
        self.scopes[i]
    }

    /// Puts another scope in place `i`, without moving it in the tree.
    pub fn set_scope(&mut self, i: usize, v: Scope)
        requires
            old(self).wf(),
            i < MAX_SCOPES,
            v.parent == old(self)@.scopes[i as int].parent,
            v.depth == old(self)@.scopes[i as int].depth,
            v.state == scope::State::Empty ==> old(self)@.scopes[i as int].state
                == scope::State::Empty,
        ensures
            final(self).wf(),
            final(self).same_tables(*old(self)),
            final(self)@ == old(self)@.with_scope(i as int, v),
    {
        proof {
            reveal(Machine::wf_but);
        }
        self.scopes[i] = v;
        assert(self@ =~= old(self)@.with_scope(i as int, v));
        assert(scopes_wf(self.scopes@)) by {
            assert(forall|k: int|
                0 <= k < MAX_SCOPES ==> (#[trigger] self.scopes@[k].parent)
                    == old(self).scopes@[k].parent && self.scopes@[k].depth
                    == old(self).scopes@[k].depth && (self.scopes@[k].state
                    == scope::State::Empty ==> old(self).scopes@[k].state
                    == scope::State::Empty));
        }
    }

    /// Charges `n` of `r` to `s` and the scopes above it, or nothing.
    pub fn charge(&mut self, s: u16, r: Resource, n: u64) -> (done: bool)
        requires
            old(self).wf(),
            s < MAX_SCOPES,
        ensures
            final(self).wf(),
            final(self).same_tables(*old(self)),
            done == old(self)@.affords(s, r, n as int),
            final(self)@ == if done {
                old(self)@.charge(s, r, n)
            } else {
                old(self)@
            },
    {
        proof {
            reveal(Machine::wf_but);
        }
        let done = scope::reserve(&mut self.scopes, s, r, n);
        assert(self@ =~= MachineModel { scopes: self.scopes@, ..old(self)@ });
        assert(!done ==> self@ =~= old(self)@);
        done
    }

    /// Gives `n` of `r` back to `s` and the scopes above it.
    pub fn uncharge(&mut self, s: u16, r: Resource, n: u64)
        requires
            old(self).wf(),
            s < MAX_SCOPES,
        ensures
            final(self).wf(),
            final(self).same_tables(*old(self)),
            final(self)@ == old(self)@.uncharge(s, r, n),
    {
        proof {
            reveal(Machine::wf_but);
        }
        scope::release(&mut self.scopes, s, r, n);
        assert(self@ =~= old(self)@.uncharge(s, r, n));
    }

    /// Whether `n` of `r` can be charged to `s`.
    pub fn affords(&self, s: u16, r: Resource, n: u64) -> (yes: bool)
        requires
            self.wf(),
            s < MAX_SCOPES,
        ensures
            yes == self@.affords(s, r, n as int),
    {
        proof {
            reveal(Machine::wf_but);
        }
        scope::fits_in(&self.scopes, s, r, n)
    }

    /// Whether scope `s` is `root` or lies below it.
    pub fn scope_within(&self, root: u16, s: u16) -> (yes: bool)
        requires
            self.wf(),
            s < MAX_SCOPES,
        ensures
            yes == within(self@.scopes, root as int, s as int),
    {
        proof {
            reveal(Machine::wf_but);
        }
        scope::is_within(&self.scopes, root, s)
    }

    /// The scopes of a consistent machine form a tree.
    pub proof fn wf_scopes(self)
        requires
            self.wf(),
        ensures
            scopes_wf(self@.scopes),
    {
        reveal(Machine::wf_but);
    }

    /// The tables of a consistent machine have their sizes.
    pub proof fn wf_sized(self)
        requires
            self.wf(),
        ensures
            self@.sized(),
    {
        reveal(Machine::wf_but);
    }

    /// The capabilities of a consistent machine name places in their tables.
    pub proof fn caps_are_ok(self)
        requires
            self.wf(),
        ensures
            crate::api::scopeops::entries_ok(self@),
    {
        reveal(Machine::wf_but);
    }

    /// A memory object of a consistent machine is well formed.
    pub proof fn memory_is_ok(self, o: int)
        requires
            self.wf(),
            0 <= o < MAX_MEMORY_OBJECTS,
        ensures
            memory_ok(self@.memories[o]),
    {
        reveal(Machine::wf_but);
    }

    /// A domain of a consistent machine is paid for by a scope of its table.
    pub proof fn domain_is_ok(self, d: usize)
        requires
            self.wf(),
            d < MAX_DOMAINS,
        ensures
            domain_ok(self@.domains[d as int]),
    {
        reveal(Machine::wf_but);
    }

    /// Where the search for a free grant node starts.
    pub fn get_grant_hint(&self) -> (hint: usize)
        requires
            self.wf(),
        ensures
            hint == self@.grant_hint,
            hint <= MAX_GRANTS,
    {
        proof {
            reveal(Machine::wf_but);
        }
        self.grant_hint
    }

    /// Moves the place where the search for a free grant node starts.
    pub fn set_grant_hint(&mut self, hint: usize)
        requires
            old(self).wf(),
            hint <= MAX_GRANTS,
        ensures
            final(self).wf(),
            final(self).same_tables(*old(self)),
            final(self)@ == (MachineModel { grant_hint: hint, ..old(self)@ }),
    {
        proof {
            reveal(Machine::wf_but);
        }
        self.grant_hint = hint;
        assert(self@ =~= (MachineModel { grant_hint: hint, ..old(self)@ }));
    }

    /// The log that covers admissions.
    pub fn get_system_log(&self) -> (log: Option<u16>)
        requires
            self.wf(),
        ensures
            log == self@.system_log,
            log matches Some(l) ==> l < MAX_CONTROL_LOGS,
    {
        proof {
            reveal(Machine::wf_but);
        }
        self.system_log
    }

    /// Counts an interrupt that was delivered, or one that nothing claimed.
    pub fn count_interrupt(&mut self, claimed: bool)
        requires
            old(self).wf(),
        ensures
            final(self).wf(),
            final(self).same_tables(*old(self)),
            final(self)@ == old(self)@.interrupt_counted(claimed),
    {
        proof {
            reveal(Machine::wf_but);
        }
        if claimed {
            self.delivered = self.delivered.saturating_add(1);
        } else {
            self.unclaimed = self.unclaimed.saturating_add(1);
        }
        assert(self@ =~= old(self)@.interrupt_counted(claimed));
    }

    /// Records what the firmware says of a remapping unit.
    pub fn set_iommu(&mut self, described: bool, translating: bool)
        requires
            old(self).wf(),
        ensures
            final(self).wf(),
            final(self).same_tables(*old(self)),
            final(self)@ == (MachineModel {
                iommu_described: described,
                iommu_translating: translating,
                ..old(self)@
            }),
    {
        proof {
            reveal(Machine::wf_but);
        }
        self.iommu_described = described;
        self.iommu_translating = translating;
        assert(self@ =~= (MachineModel {
            iommu_described: described,
            iommu_translating: translating,
            ..old(self)@
        }));
    }

    /// Publishes the next invalidation generation.
    pub fn publish(&mut self) -> (generation: u64)
        requires
            old(self).wf(),
        ensures
            final(self).wf(),
            final(self).same_tables(*old(self)),
            final(self)@ == old(self)@.publish(),
            generation == final(self)@.published,
    {
        proof {
            reveal(Machine::wf_but);
        }
        self.published = self.published.saturating_add(1);
        assert(self@ =~= old(self)@.publish());
        self.published
    }

    /// Whether an identity is left to take.
    pub fn has_id(&self) -> (yes: bool)
        ensures
            yes == (self@.next_id < u64::MAX),
    {
        self.next_id < u64::MAX
    }

    /// The entry in slot `slot` of a domain's capability table.
    pub fn cap(&self, domain: usize, slot: usize) -> (v: CapEntry)
        requires
            self.wf(),
            domain < MAX_DOMAINS,
            slot < MAX_CAPS,
        ensures
            v == self@.caps[cap_at(domain as int, slot as int)],
            cap_ok(v),
    {
        proof {
            reveal(Machine::wf_but);
        }
        self.caps[domain * MAX_CAPS + slot]
    }

    /// The live entry a handle names in a domain's table.
    pub fn cap_named(&self, domain: usize, handle: u64) -> (entry: Option<CapEntry>)
        requires
            self.wf(),
            domain < MAX_DOMAINS,
        ensures
            entry == cap_lookup(self@.caps, domain as int, handle),
            entry matches Some(e) ==> cap_ok(e) && crate::abi::slot_of(handle) < MAX_CAPS,
    {
        proof {
            reveal(Machine::wf_but);
        }
        obj::lookup(&self.caps, domain, handle)
    }

    /// The first slot of a domain's table that can be filled.
    pub fn free_cap(&self, domain: usize) -> (slot: usize)
        requires
            self.wf(),
            domain < MAX_DOMAINS,
        ensures
            slot == first_free(self@.caps, domain as int, 0),
            slot <= MAX_CAPS,
            slot < MAX_CAPS ==> self@.caps[cap_at(domain as int, slot as int)].is_free(),
    {
        proof {
            reveal(Machine::wf_but);
        }
        obj::find_free(&self.caps, domain)
    }

    /// How many slots of a domain's table can be filled.
    pub fn free_caps(&self, domain: usize) -> (count: usize)
        requires
            self.wf(),
            domain < MAX_DOMAINS,
        ensures
            count == count_free(self@.caps, domain as int, 0),
    {
        proof {
            reveal(Machine::wf_but);
        }
        obj::free_slots(&self.caps, domain)
    }

    /// Fills a slot of a domain's table.
    pub fn fill_cap(&mut self, domain: usize, slot: usize, object: ObjRef, grant: u16) -> (
        handle: u64)
        requires
            old(self).wf(),
            domain < MAX_DOMAINS,
            slot < MAX_CAPS,
            old(self)@.caps[cap_at(domain as int, slot as int)].is_free(),
            ref_ok(object),
            grant_ref_ok(grant),
        ensures
            final(self).wf(),
            final(self).same_tables(*old(self)),
            final(self)@ == (MachineModel {
                caps: with_cap(old(self)@.caps, domain as int, slot as int, object, grant),
                ..old(self)@
            }),
            handle == old(self)@.fresh_handle(domain as int, slot as int),
    {
        proof {
            reveal(Machine::wf_but);
        }
        let handle = obj::fill(&mut self.caps, domain, slot, object, grant);
        assert(self@ =~= (MachineModel { caps: self.caps@, ..old(self)@ }));
        handle
    }

    /// Empties a slot of a domain's table.
    pub fn empty_cap(&mut self, domain: usize, slot: usize) -> (entry: Option<CapEntry>)
        requires
            old(self).wf(),
            domain < MAX_DOMAINS,
            slot < MAX_CAPS,
        ensures
            final(self).wf(),
            final(self).same_tables(*old(self)),
            ({
                let held = old(self)@.caps[cap_at(domain as int, slot as int)];
                if held.live {
                    &&& entry == Some(held)
                    &&& cap_ok(held)
                    &&& final(self)@ == (MachineModel {
                        caps: without_cap(old(self)@.caps, domain as int, slot as int),
                        ..old(self)@
                    })
                } else {
                    &&& entry is None
                    &&& final(self)@ == old(self)@
                }
            }),
    {
        proof {
            reveal(Machine::wf_but);
        }
        let entry = obj::empty_slot(&mut self.caps, domain, slot);
        assert(self@ =~= (MachineModel { caps: self.caps@, ..old(self)@ }));
        assert(entry is None ==> self@ =~= old(self)@);
        entry
    }

    /// The identity, generation and cells of the log in place `i`.
    pub fn log(&self, i: usize) -> (log: &ControlLog)
        requires
            self.wf(),
            i < MAX_CONTROL_LOGS,
        ensures
            log@ == self@.logs[i as int],
            log.wf(),
    {
        proof {
            reveal(Machine::wf_but);
        }
        &self.logs[i]
    }

    /// Reserves a cell of a log for a covered operation.
    pub fn reserve_cell(&mut self, i: usize) -> (done: bool)
        requires
            old(self).wf(),
            i < MAX_CONTROL_LOGS,
        ensures
            final(self).wf(),
            final(self).same_tables(*old(self)),
            done == old(self)@.logs[i as int].can_reserve(),
            final(self)@ == if done {
                old(self)@.with_log(
                    i as int,
                    LogModel {
                        pending: (old(self)@.logs[i as int].pending + 1) as u32,
                        ..old(self)@.logs[i as int]
                    },
                )
            } else {
                old(self)@
            },
    {
        proof {
            reveal(Machine::wf_but);
        }
        let ghost before = self.logs@[i as int];
        assert(before.live().len() == before.count);
        let done = self.logs[i].reserve();
        assert(self.logs@[i as int].live() =~= before.live());
        assert(self@ =~= if done {
            old(self)@.with_log(
                i as int,
                LogModel {
                    pending: (old(self)@.logs[i as int].pending + 1) as u32,
                    ..old(self)@.logs[i as int]
                },
            )
        } else {
            old(self)@
        });
        done
    }

    /// Returns a reserved cell of a log.
    pub fn release_cell(&mut self, i: usize)
        requires
            old(self).wf(),
            i < MAX_CONTROL_LOGS,
        ensures
            final(self).wf(),
            final(self).same_tables(*old(self)),
            final(self)@ == old(self)@.with_log(
                i as int,
                LogModel {
                    pending: one_less(old(self)@.logs[i as int].pending),
                    ..old(self)@.logs[i as int]
                },
            ),
    {
        proof {
            reveal(Machine::wf_but);
        }
        let ghost before = self.logs@[i as int];
        self.logs[i].release_reservation();
        assert(self.logs@[i as int].live() =~= before.live());
        assert(self@ =~= old(self)@.with_log(
            i as int,
            LogModel {
                pending: one_less(old(self)@.logs[i as int].pending),
                ..old(self)@.logs[i as int]
            },
        ));
    }

    /// Writes a receipt to a log, into a reserved cell or not.
    pub fn write_receipt(&mut self, i: usize, record: ReceiptRecord, reserved: bool) -> (
        sequence: u64)
        requires
            old(self).wf(),
            i < MAX_CONTROL_LOGS,
        ensures
            final(self).wf(),
            final(self).same_tables(*old(self)),
            final(self)@ == old(self)@.with_log(
                i as int,
                old(self)@.logs[i as int].recorded(record, reserved),
            ),
            sequence == if old(self)@.logs[i as int].takes(record.kind, reserved) {
                old(self)@.logs[i as int].next_sequence
            } else {
                0
            },
    {
        proof {
            reveal(Machine::wf_but);
        }
        let ghost before = self.logs@[i as int];
        assert(before.live().len() == before.count);
        let sequence: u64 = if reserved {
            self.logs[i].commit_reserved(record)
        } else {
            self.logs[i].write(record)
        };
        proof {
            wrote_is_recorded(before, self.logs@[i as int], record, reserved);
        }
        assert(self@ =~= old(self)@.with_log(
            i as int,
            old(self)@.logs[i as int].recorded(record, reserved),
        ));
        sequence
    }

    /// Drops the leading records of a log up to a sequence.
    pub fn acknowledge_receipts(&mut self, i: usize, sequence: u64) -> (dropped: usize)
        requires
            old(self).wf(),
            i < MAX_CONTROL_LOGS,
        ensures
            final(self).wf(),
            final(self).same_tables(*old(self)),
            ({
                let log = old(self)@.logs[i as int];
                &&& dropped == acknowledged(log.live, sequence)
                &&& final(self)@ == old(self)@.with_log(
                    i as int,
                    LogModel { live: log.live.skip(dropped as int), ..log },
                )
            }),
    {
        proof {
            reveal(Machine::wf_but);
        }
        let dropped: usize = self.logs[i].acknowledge(sequence);
        assert(self@ =~= old(self)@.with_log(
            i as int,
            LogModel {
                live: old(self)@.logs[i as int].live.skip(dropped as int),
                ..old(self)@.logs[i as int]
            },
        ));
        dropped
    }

    /// Counts `refs` capability entries on a log.
    pub fn set_log_refs(&mut self, i: usize, refs: u32)
        requires
            old(self).wf(),
            i < MAX_CONTROL_LOGS,
        ensures
            final(self).wf(),
            final(self).same_tables(*old(self)),
            final(self)@ == old(self)@.with_log(
                i as int,
                LogModel { refs, ..old(self)@.logs[i as int] },
            ),
    {
        proof {
            reveal(Machine::wf_but);
        }
        let ghost before = self.logs@[i as int];
        self.logs[i].refs = refs;
        assert(self.logs@[i as int].live() =~= before.live());
        assert(self@ =~= old(self)@.with_log(
            i as int,
            LogModel { refs, ..old(self)@.logs[i as int] },
        ));
    }

    /// The oldest message queued on endpoint `i`.
    pub fn queue_front(&self, i: usize) -> (front: Option<u16>)
        requires
            self.wf(),
            i < MAX_ENDPOINTS,
        ensures
            match front {
                Some(m) => self@.queues[i as int].len() > 0 && m == self@.queues[i as int][0]
                    && m < MAX_MESSAGES,
                None => self@.queues[i as int].len() == 0,
            },
    {
        proof {
            reveal(Machine::wf_but);
        }
        if self.queues[i].len() == 0 {
            None
        } else {
            let front: u16 = self.queues[i][0];
            assert(self@.queues[i as int][0] == front);
            Some(front)
        }
    }

    /// The messages queued on endpoint `i`, oldest first.
    pub fn queue(&self, i: usize) -> (queue: Vec<u16>)
        requires
            self.wf(),
            i < MAX_ENDPOINTS,
        ensures
            queue@ == self@.queues[i as int],
            forall|k: int| 0 <= k < queue@.len() ==> #[trigger] queue@[k] < MAX_MESSAGES,
    {
        proof {
            reveal(Machine::wf_but);
        }
        let mut queue: Vec<u16> = Vec::new();
        let count: usize = self.queues[i].len();
        for k in 0..count
            invariant
                i < self.queues@.len(),
                count == self.queues@[i as int]@.len(),
                queue@ == self.queues@[i as int]@.take(k as int),
        {
            queue.push(self.queues[i][k]);
            assert(queue@ =~= self.queues@[i as int]@.take(k + 1));
        }
        assert(queue@ =~= self@.queues[i as int]);
        assert forall|k: int| 0 <= k < queue@.len() implies #[trigger] queue@[k]
            < MAX_MESSAGES by {
            assert(self@.queues[i as int][k] < MAX_MESSAGES);
        }
        queue
    }

    /// Queues a message on endpoint `i` behind all others.
    pub fn push_queue(&mut self, i: usize, message: u16)
        requires
            old(self).wf(),
            i < MAX_ENDPOINTS,
            message < MAX_MESSAGES,
        ensures
            final(self).wf(),
            final(self).same_tables(*old(self)),
            final(self)@ == old(self)@.with_queue(
                i as int,
                old(self)@.queues[i as int].push(message),
            ),
    {
        proof {
            reveal(Machine::wf_but);
        }
        self.queues[i].push(message);
        assert(self@ =~= old(self)@.with_queue(
            i as int,
            old(self)@.queues[i as int].push(message),
        ));
        assert(forall|e: int, k: int|
            0 <= e < MAX_ENDPOINTS && 0 <= k < old(self)@.queues[e].len()
                ==> #[trigger] old(self)@.queues[e][k] < MAX_MESSAGES);
        assert forall|e: int, k: int|
            0 <= e < MAX_ENDPOINTS && 0 <= k < self@.queues[e].len() implies
            #[trigger] self@.queues[e][k] < MAX_MESSAGES by {
            if e == i && k == old(self)@.queues[e].len() {
            } else {
                assert(self@.queues[e][k] == old(self)@.queues[e][k]);
            }
        }
    }

    /// Takes the oldest message off the queue of endpoint `i`.
    pub fn pop_queue(&mut self, i: usize)
        requires
            old(self).wf(),
            i < MAX_ENDPOINTS,
            old(self)@.queues[i as int].len() > 0,
        ensures
            final(self).wf(),
            final(self).same_tables(*old(self)),
            final(self)@ == old(self)@.with_queue(
                i as int,
                old(self)@.queues[i as int].drop_first(),
            ),
    {
        proof {
            reveal(Machine::wf_but);
        }
        let ghost queue = old(self)@.queues[i as int];
        self.queues[i].remove(0);
        assert(queue.remove(0) =~= queue.drop_first());
        assert(self@ =~= old(self)@.with_queue(i as int, queue.drop_first()));
        assert forall|e: int, k: int|
            0 <= e < MAX_ENDPOINTS && 0 <= k < self@.queues[e].len() implies
            #[trigger] self@.queues[e][k] < MAX_MESSAGES by {
            if e != i {
                assert(self@.queues[e][k] == old(self)@.queues[e][k]);
            } else {
                assert(self@.queues[e][k] == old(self)@.queues[e][k + 1]);
            }
        }
    }

    /// Takes a message off the queue of endpoint `i`, wherever it stands.
    pub fn unlink(&mut self, i: usize, message: u16) -> (found: bool)
        requires
            old(self).wf(),
            i < MAX_ENDPOINTS,
        ensures
            final(self).wf(),
            final(self).same_tables(*old(self)),
            found == old(self)@.queues[i as int].contains(message),
            final(self)@ == old(self)@.with_queue(
                i as int,
                unlinked(old(self)@.queues[i as int], message),
            ),
    {
        proof {
            reveal(Machine::wf_but);
        }
        let ghost queue = old(self)@.queues[i as int];
        let mut at: usize = 0;
        while at < self.queues[i].len() && self.queues[i][at] != message
            invariant
                *self == *old(self),
                i < self.queues@.len(),
                queue == self.queues@[i as int]@,
                at <= queue.len(),
                forall|k: int| 0 <= k < at ==> queue[k] != message,
            decreases queue.len() - at,
        {
            at += 1;
        }
        if at == self.queues[i].len() {
            assert(!queue.contains(message));
            assert(self@ =~= old(self)@.with_queue(i as int, unlinked(queue, message)));
            return false;
        }
        proof {
            assert(queue[at as int] == message);
            index_of_first(queue, message, at as int);
        }
        self.queues[i].remove(at);
        assert(self@ =~= old(self)@.with_queue(i as int, unlinked(queue, message)));
        assert forall|e: int, k: int|
            0 <= e < MAX_ENDPOINTS && 0 <= k < self@.queues[e].len() implies
            #[trigger] self@.queues[e][k] < MAX_MESSAGES by {
            if e != i || k < at {
                assert(self@.queues[e][k] == old(self)@.queues[e][k]);
            } else {
                assert(self@.queues[e][k] == old(self)@.queues[e][k + 1]);
            }
        }
        true
    }

    /// Takes the first run of free frames for `owner`.
    pub fn take_frames(&mut self, pages: u64, owner: Owner) -> (base: Option<Frame>)
        requires
            old(self).wf(),
            0 < pages <= MAX_OBJECT_PAGES,
        ensures
            final(self).wf(),
            final(self).kernel_as(*old(self)),
            base is Some == has_run(old(self)@.uses, pages as int),
            match base {
                Some(b) => {
                    &&& b.number == first_run(old(self)@.uses, pages as int)
                    &&& is_free_run(old(self)@.uses, b.number as int, pages as int)
                    &&& b.number + pages <= PHYSICAL_FRAMES
                    &&& final(self)@ == old(self)@.frames_taken(b.number as int, pages, owner)
                    &&& run_is_zero(final(self).frames, b.number as int, pages as int)
                },
                None => final(self)@ == old(self)@,
            },
    {
        proof {
            reveal(Machine::wf_but);
        }
        match self.frames.acquire_run(pages, owner) {
            Ok(base) => {
                proof {
                    first_run_is(old(self)@.uses, base.number as int, pages as int);
                }
                proof {
                    assert forall|i: int|
                        0 <= i < old(self).frames.frames()
                            && (#[trigger] old(self).frames.labels@[i]) is Some implies
                        self.frames.contents()[i] == old(self).frames.contents()[i] by {
                        if base.number <= i < base.number + pages {
                            assert(old(self).frames.uses@[i] == FrameUse::Free);
                        }
                    }
                    self.emptied_frames_are_none(*old(self));
                }
                assert(self@ =~= old(self)@.frames_taken(base.number as int, pages, owner));
                Some(base)
            },
            Err(_) => None,
        }
    }

    /// Moves what waits in quarantine from one account to another.
    pub fn reassign_quarantine(&mut self, from: Owner, to: Owner)
        requires
            old(self).wf(),
        ensures
            final(self).wf(),
            final(self).same_tables(*old(self)),
            final(self)@ == (MachineModel {
                uses: quarantine_moved(old(self)@.uses, from, to),
                ..old(self)@
            }),
    {
        proof {
            reveal(Machine::wf_but);
        }
        self.frames.reassign_quarantine(from, to);
        proof {
            uses_translate_nothing(old(self).frames, self.frames);
            self.owned_tables_stay(*old(self));
        }
        assert(self@ =~= (MachineModel { uses: self.frames.uses@, ..old(self)@ }));
        proof {
            self@.backing().stands_on(old(self)@.backing());
        }
    }

    /// Frames ready to be handed out.
    pub fn available(&self) -> (count: u64)
        requires
            self.wf(),
        ensures
            count == count_use(self@.uses, FrameUse::Free),
    {
        proof {
            reveal(Machine::wf_but);
        }
        self.frames.available()
    }

    /// Frames charged to an account.
    pub fn charged(&self, owner: Owner) -> (count: u64)
        requires
            self.wf(),
        ensures
            count == count_use(self@.uses, FrameUse::Held(owner)) + count_use(
                self@.uses,
                FrameUse::Table(owner),
            ),
            count <= MAX_FRAMES,
    {
        proof {
            reveal(Machine::wf_but);
            charged_is_small(self@.uses, owner);
        }
        self.frames.charged(owner)
    }

    /// Whether the kernel has an address space.
    pub fn has_kernel_space(&self) -> (yes: bool)
        ensures
            yes == (self@.kernel_space is Some),
    {
        self.kernel_space.is_some()
    }

    /// Counts a fault of a user program.
    pub fn count_fault(&mut self)
        requires
            old(self).wf(),
        ensures
            final(self).wf(),
            final(self).same_tables(*old(self)),
            final(self)@ == (MachineModel {
                user_faults: if old(self)@.user_faults < u64::MAX {
                    (old(self)@.user_faults + 1) as u64
                } else {
                    u64::MAX
                },
                ..old(self)@
            }),
    {
        proof {
            reveal(Machine::wf_but);
        }
        self.user_faults = self.user_faults.saturating_add(1);
        assert(self@ =~= (MachineModel { user_faults: self.user_faults, ..old(self)@ }));
    }

    /// Whether a stopped domain waits to be reclaimed.
    pub fn set_dead_pending(&mut self, pending: bool)
        requires
            old(self).wf(),
        ensures
            final(self).wf(),
            final(self).same_tables(*old(self)),
            final(self)@ == (MachineModel { dead_pending: pending, ..old(self)@ }),
    {
        proof {
            reveal(Machine::wf_but);
        }
        self.dead_pending = pending;
        assert(self@ =~= (MachineModel { dead_pending: pending, ..old(self)@ }));
    }

    /// Gives the frames of a run back that `owner` holds.
    pub fn give_back(&mut self, base: Frame, pages: u64, owner: Owner, immediate: bool)
        requires
            old(self).wf(),
            base.number + pages <= PHYSICAL_FRAMES,
            !(owner is Domain),
        ensures
            final(self).wf(),
            final(self).same_tables(*old(self)),
            final(self)@ == old(self)@.frames_back(base, pages, owner, immediate),
    {
        proof {
            reveal(Machine::wf_but);
        }
        self.frames.give_back_run(base, pages, owner, immediate);
        proof {
            uses_translate_nothing(old(self).frames, self.frames);
            self.owned_tables_stay(*old(self));
        }
        assert(self@ =~= old(self)@.frames_back(base, pages, owner, immediate));
        proof {
            self@.backing().stands_on(old(self)@.backing());
        }
    }

    /// Closes `root` and every scope below it; returns how many were open.
    pub fn fence_scopes(&mut self, root: u16) -> (closed: u32)
        requires
            old(self).wf(),
            root < MAX_SCOPES,
        ensures
            final(self).wf(),
            final(self).same_tables(*old(self)),
            final(self)@ == (MachineModel {
                scopes: fenced(old(self)@.scopes, root as int),
                ..old(self)@
            }),
            closed == open_within(old(self)@.scopes, root as int, MAX_SCOPES as int),
    {
        proof {
            reveal(Machine::wf_but);
        }
        let closed: u32 = scope::fence(&mut self.scopes, root);
        assert(self@ =~= (MachineModel { scopes: self.scopes@, ..old(self)@ }));
        closed
    }

    /// What the perimeter of `root` still holds.
    pub fn pending(&self, root: u16) -> (held: Pending)
        requires
            self.wf(),
            root < MAX_SCOPES,
        ensures
            held == pending_spec(self@.scopes, root as int),
    {
        proof {
            reveal(Machine::wf_but);
        }
        scope::pending(&self.scopes, root)
    }

    /// Marks every fenced scope that holds nothing any more as quiescent.
    pub fn advance_quiescence(&mut self, now: u64)
        requires
            old(self).wf(),
        ensures
            final(self).wf(),
            final(self).same_tables(*old(self)),
            final(self)@ == (MachineModel {
                scopes: quiesced(old(self)@.scopes, now),
                ..old(self)@
            }),
    {
        proof {
            reveal(Machine::wf_but);
        }
        scope::advance_quiescence(&mut self.scopes, now);
        assert(self@ =~= (MachineModel { scopes: self.scopes@, ..old(self)@ }));
    }

    /// Whether a slot of parallelism is left in `s` and every scope above it.
    pub fn has_parallelism(&self, s: u16) -> (yes: bool)
        requires
            self.wf(),
            s < MAX_SCOPES,
        ensures
            yes == has_slot(self@.scopes, s as int),
    {
        proof {
            reveal(Machine::wf_but);
        }
        scope::has_parallelism(&self.scopes, s)
    }

    /// Counts a running thread more, or one fewer, in `s` and the scopes above.
    pub fn count_parallelism(&mut self, s: u16, more: bool)
        requires
            old(self).wf(),
            s < MAX_SCOPES,
        ensures
            final(self).wf(),
            final(self).same_tables(*old(self)),
            final(self)@ == (MachineModel {
                scopes: parallelised(old(self)@.scopes, s as int, more),
                ..old(self)@
            }),
    {
        proof {
            reveal(Machine::wf_but);
        }
        scope::count_parallelism(&mut self.scopes, s, more);
        assert(self@ =~= (MachineModel { scopes: self.scopes@, ..old(self)@ }));
    }

    /// Puts a scope into a free slot, below a scope in use.
    pub fn put_scope(&mut self, i: usize, v: Scope)
        requires
            old(self).wf(),
            i < MAX_SCOPES,
            old(self)@.scopes[i as int].state == scope::State::Empty,
            match v.parent {
                Some(p) => {
                    &&& p < MAX_SCOPES
                    &&& p != i
                    &&& old(self)@.scopes[p as int].state != scope::State::Empty
                    &&& v.depth == old(self)@.scopes[p as int].depth + 1
                },
                None => v.depth == 0,
            },
        ensures
            final(self).wf(),
            final(self).same_tables(*old(self)),
            final(self)@ == old(self)@.with_scope(i as int, v),
    {
        proof {
            reveal(Machine::wf_but);
        }
        self.scopes[i] = v;
        assert(self@ =~= old(self)@.with_scope(i as int, v));
        assert(scopes_wf(self.scopes@)) by {
            assert forall|k: int| 0 <= k < MAX_SCOPES implies match
            #[trigger] self.scopes@[k].parent {
                Some(p) => {
                    &&& p < MAX_SCOPES
                    &&& self.scopes@[k].depth == self.scopes@[p as int].depth + 1
                    &&& self.scopes@[p as int].state != scope::State::Empty
                },
                None => self.scopes@[k].depth == 0,
            } by {
                if k != i {
                    assert(self.scopes@[k].parent == old(self).scopes@[k].parent);
                }
            }
        }
    }

    /// Empties the slot of a scope that is nobody's parent.
    pub fn free_scope(&mut self, i: usize, v: Scope)
        requires
            old(self).wf(),
            i < MAX_SCOPES,
            is_leaf(old(self)@.scopes, i as int),
            v.parent is None,
            v.depth == 0,
        ensures
            final(self).wf(),
            final(self).same_tables(*old(self)),
            final(self)@ == old(self)@.with_scope(i as int, v),
    {
        proof {
            reveal(Machine::wf_but);
        }
        self.scopes[i] = v;
        assert(self@ =~= old(self)@.with_scope(i as int, v));
        assert(scopes_wf(self.scopes@)) by {
            assert forall|k: int| 0 <= k < MAX_SCOPES implies match
            #[trigger] self.scopes@[k].parent {
                Some(p) => {
                    &&& p < MAX_SCOPES
                    &&& self.scopes@[k].depth == self.scopes@[p as int].depth + 1
                    &&& self.scopes@[p as int].state != scope::State::Empty
                },
                None => self.scopes@[k].depth == 0,
            } by {
                if k != i {
                    assert(self.scopes@[k].parent == old(self).scopes@[k].parent);
                }
            }
        }
    }
}

/// No scope has `i` as its parent.
pub open spec fn is_leaf(scopes: Seq<Scope>, i: int) -> bool {
    forall|k: int|
        0 <= k < scopes.len() ==> (#[trigger] scopes[k].parent matches Some(p) ==> p != i)
}

/// The queue without the first occurrence of `message`.
pub open spec fn unlinked(queue: Seq<u16>, message: u16) -> Seq<u16> {
    if queue.contains(message) {
        queue.remove(queue.index_of_first(message)->0)
    } else {
        queue
    }
}

proof fn index_of_first(queue: Seq<u16>, message: u16, at: int)
    requires
        0 <= at < queue.len(),
        queue[at] == message,
        forall|k: int| 0 <= k < at ==> queue[k] != message,
    ensures
        queue.index_of_first(message) == Some(at),
{
    queue.index_of_first_ensures(message);
}

} // verus!
