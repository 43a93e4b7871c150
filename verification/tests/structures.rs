//! The tables behind the interface: handles, scopes, frames, page tables, the
//! control log.

use thalyx::abi::status::Status;
use thalyx::abi::{
    boot_handle, handle, handle_generation, handle_slot, op, op_type, pack_version, receipt_kind,
};
use thalyx::arch::x86_64::paging::{AddressSpace, MapError};
use thalyx::boot::{build_kernel_space, KernelPlan, Section};
use thalyx::ctrl::{is_closing, ControlLog, ReceiptRecord};
use thalyx::ipc;
use thalyx::layout::{ist_slot_base, kstack_slot_base, LAPIC_VADDR};
use thalyx::limits::{
    CONTROL_LOG_CAPACITY, CONTROL_LOG_RESERVED, MAX_CAPS, MAX_DOMAINS, MAX_SCOPES,
};
use thalyx::memobj;
use thalyx::mm::{Frame, FrameAllocator, FrameUse, Owner, Rights};
use thalyx::obj::{empty_slot, fill, find_free, free_slots, lookup, CapEntry, ObjKind, ObjRef};
use thalyx::protocol::{HHDM_BASE, KERNEL_IMAGE_BASE};
use thalyx::scope::{
    advance_quiescence, count_parallelism, fence, fits_in, has_parallelism, is_within, pending,
    release, reserve, Limits, Resource, Scope, State,
};

#[test]
fn handles_carry_slot_and_generation() {
    let value = handle(5, 9);
    assert_eq!(value, 0x9_0000_0005);
    assert_eq!((handle_slot(value), handle_generation(value)), (5, 9));
    assert_eq!(boot_handle(3), 0x1_0000_0003);
    assert_eq!(pack_version(2, 7), 0x2_0007);
    assert_eq!(op_type(op::TIMER_ARM), 7);
    assert_eq!(Status::Success.code(), 0);
    assert!(Status::DrainIncomplete.code() < 0);
}

fn caps() -> Vec<CapEntry> {
    vec![CapEntry::empty(); MAX_DOMAINS * MAX_CAPS]
}

#[test]
fn stale_handles_are_refused() {
    let mut caps = caps();
    let object = ObjRef { kind: ObjKind::Signal, index: 2, generation: 1 };
    assert_eq!(free_slots(&caps, 1), MAX_CAPS);
    let slot = find_free(&caps, 1);
    let first = fill(&mut caps, 1, slot, object, 4);
    assert_eq!(lookup(&caps, 1, first).unwrap().object, object);
    // A handle of one domain names nothing in another.
    assert!(lookup(&caps, 0, first).is_none());
    assert_eq!(free_slots(&caps, 1), MAX_CAPS - 1);
    assert_eq!(empty_slot(&mut caps, 1, slot).unwrap().grant, 4);
    assert!(lookup(&caps, 1, first).is_none());
    assert!(empty_slot(&mut caps, 1, slot).is_none());
    let second = fill(&mut caps, 1, slot, object, 4);
    assert_ne!(first, second);
    assert!(lookup(&caps, 1, first).is_none());
    assert!(lookup(&caps, 1, 0).is_none());
    assert!(lookup(&caps, 1, u64::MAX).is_none());
}

#[test]
fn kinds_have_their_rights() {
    assert_eq!(ObjKind::Device.rights_mask(), 0xFF);
    assert_eq!(ObjKind::Memory.rights_mask(), 0x1FF);
    assert_eq!(ObjKind::ControlLog.abi_type(), 8);
}

fn limits(pages: u64) -> Limits {
    Limits {
        memory_pages: pages,
        metadata_objects: 10,
        cpu_budget_ns: 0,
        queue_bytes: 100,
        closure_reserve_ns: 0,
        parallelism: 2,
    }
}

fn tree() -> Vec<Scope> {
    let mut scopes = vec![Scope::empty(0); MAX_SCOPES];
    for (i, pages) in [(0usize, 10u64), (1, 8), (2, 20)] {
        scopes[i] = Scope {
            state: State::Open,
            parent: if i == 0 { None } else { Some(i as u16 - 1) },
            depth: i as u32,
            limits: limits(pages),
            ..Scope::empty(1)
        };
    }
    scopes
}

#[test]
fn a_charge_fits_every_scope_above_or_none() {
    let mut scopes = tree();
    assert!(fits_in(&scopes, 2, Resource::MemoryPages, 8));
    assert!(!fits_in(&scopes, 2, Resource::MemoryPages, 9));
    assert!(!reserve(&mut scopes, 2, Resource::MemoryPages, 9));
    assert_eq!(scopes[2].memory_pages, 0);
    assert!(reserve(&mut scopes, 2, Resource::MemoryPages, 5));
    assert_eq!((scopes[0].memory_pages, scopes[1].memory_pages), (5, 5));
    assert!(reserve(&mut scopes, 0, Resource::MemoryPages, 5));
    assert!(!reserve(&mut scopes, 2, Resource::MemoryPages, 1));
    release(&mut scopes, 2, Resource::MemoryPages, 5);
    assert_eq!(scopes[2].memory_pages, 0);
    assert_eq!(scopes[0].memory_pages, 5);
}

#[test]
fn a_fence_reaches_every_scope_below() {
    let mut scopes = tree();
    assert!(is_within(&scopes, 0, 2) && is_within(&scopes, 2, 2) && !is_within(&scopes, 2, 1));
    assert_eq!(fence(&mut scopes, 1), 2);
    assert_eq!(scopes[0].state, State::Open);
    assert_eq!((scopes[1].state, scopes[2].state), (State::Fenced, State::Fenced));
    assert_eq!(fence(&mut scopes, 1), 0);
    scopes[2].invocations_pending = 1;
    assert_eq!(pending(&scopes, 1).invocations, 1);
    advance_quiescence(&mut scopes, 5);
    assert_eq!(scopes[1].state, State::Fenced);
    scopes[2].invocations_pending = 0;
    advance_quiescence(&mut scopes, 6);
    assert_eq!((scopes[1].state, scopes[2].state), (State::Quiescent, State::Quiescent));
}

#[test]
fn parallelism_is_counted_upwards() {
    let mut scopes = tree();
    assert!(has_parallelism(&scopes, 2));
    count_parallelism(&mut scopes, 2, true);
    count_parallelism(&mut scopes, 1, true);
    assert_eq!(scopes[0].parallelism_used, 2);
    assert!(!has_parallelism(&scopes, 2));
    count_parallelism(&mut scopes, 1, false);
    assert!(has_parallelism(&scopes, 2));
}

#[test]
fn frames_are_handed_out_and_come_back() {
    let mut uses = vec![FrameUse::Free; 8];
    uses[0] = FrameUse::Reserved;
    uses[4] = FrameUse::Reserved;
    let mut frames = FrameAllocator::new(uses);
    let first = frames.acquire(Owner::Kernel).unwrap();
    assert_eq!(first.number, 1);
    assert!(frames.acquire_run(4, Owner::Scope(0)).is_err());
    let run = frames.acquire_run(3, Owner::Scope(0)).unwrap();
    assert_eq!(run.number, 5);
    assert_eq!(frames.charged(Owner::Scope(0)), 3);
    frames.give_back_run(run, 3, Owner::Scope(0), true);
    assert_eq!(frames.available(), 5);
    frames.retire(first, Owner::Domain(0));
    assert_eq!(frames.charged(Owner::Kernel), 1);
    frames.retire(first, Owner::Kernel);
    assert_eq!(frames.available(), 5);
    assert_eq!(frames.drain_quarantine(), 1);
    assert_eq!(frames.reclaim(0, 8), 2);
    assert_eq!(frames.available(), 8);
}

#[test]
fn pages_are_mapped_once_and_never_writable_and_executable() {
    let mut frames = FrameAllocator::new(vec![FrameUse::Free; 32]);
    let space = AddressSpace::new(&mut frames, Owner::Domain(0)).unwrap();
    let other = AddressSpace::new(&mut frames, Owner::Domain(1)).unwrap();
    let rw = Rights::user(true, true, false);
    let frame = Frame { number: 20 };
    assert_eq!(space.map(0x40_0000, frame, rw, &mut frames, Owner::Domain(0)), Ok(()));
    let (phys, entry) = space.translate(0x40_0123, &frames).unwrap();
    assert_eq!(phys, 20 * 4096 + 0x123);
    assert_eq!(entry & 0x8000_0000_0000_0007, 0x8000_0000_0000_0007);
    assert!(other.translate(0x40_0000, &frames).is_none());
    assert_eq!(
        space.map(0x40_0000, frame, rw, &mut frames, Owner::Domain(0)),
        Err(MapError::AlreadyMapped)
    );
    assert_eq!(
        space.map(0x40_1001, frame, rw, &mut frames, Owner::Domain(0)),
        Err(MapError::BadAddress)
    );
    assert_eq!(
        space.map(0x8000_0000_0000, frame, rw, &mut frames, Owner::Domain(0)),
        Err(MapError::BadAddress)
    );
    let wx = Rights::user(true, true, true);
    assert!(matches!(
        space.map(0x50_0000, frame, wx, &mut frames, Owner::Domain(0)),
        Err(MapError::Rights(_))
    ));
    assert_eq!(space.unmap(0x40_0000, &mut frames), Some(frame));
    assert!(space.translate(0x40_0000, &frames).is_none());
    assert_eq!(space.unmap(0x40_0000, &mut frames), None);
}

fn section(start: u64, end: u64, write: bool, execute: bool) -> Section {
    Section {
        start,
        end,
        rights: Rights { read: true, write, execute, user: false, uncacheable: false },
    }
}

fn plan() -> KernelPlan {
    KernelPlan {
        hhdm_pages: 1024,
        lapic_phys: Some(0xFEE0_0000),
        delta: 0x20_0000u64.wrapping_sub(KERNEL_IMAGE_BASE),
        text: section(KERNEL_IMAGE_BASE, KERNEL_IMAGE_BASE + 0x1800, false, true),
        rodata: section(KERNEL_IMAGE_BASE + 0x2000, KERNEL_IMAGE_BASE + 0x2000, false, false),
        data: section(KERNEL_IMAGE_BASE + 0x3000, KERNEL_IMAGE_BASE + 0x4000, true, false),
    }
}

#[test]
fn the_kernel_space_holds_its_plan() {
    let mut frames = FrameAllocator::new(vec![FrameUse::Free; 32]);
    let space = build_kernel_space(&mut frames, &plan()).unwrap();
    let at = |v: u64| space.translate(v, &frames);
    assert_eq!(at(HHDM_BASE + 0x20_0123).unwrap().0, 0x20_0123);
    assert!(at(HHDM_BASE + 1024 * 4096).is_none());
    assert_eq!(at(LAPIC_VADDR + 0x20).unwrap().0, 0xFEE0_0020);
    let (text, entry) = at(KERNEL_IMAGE_BASE + 0x1234).unwrap();
    assert_eq!(text, 0x20_1234);
    assert_eq!(entry & 0x8000_0000_0000_0002, 0);
    let (_, entry) = at(KERNEL_IMAGE_BASE + 0x3000).unwrap();
    assert_eq!(entry & 0x8000_0000_0000_0002, 0x8000_0000_0000_0002);
    assert!(at(KERNEL_IMAGE_BASE + 0x2000).is_none());
}

#[test]
fn the_kernel_space_holds_nothing_else() {
    let mut frames = FrameAllocator::new(vec![FrameUse::Free; 32]);
    let space = build_kernel_space(&mut frames, &plan()).unwrap();
    let at = |v: u64| space.translate(v, &frames);
    for v in [
        0,
        0x40_0000,
        0x7FFF_FFFF_F000,
        HHDM_BASE + 1024 * 4096,
        LAPIC_VADDR - 0x1000,
        LAPIC_VADDR + 0x1000,
        KERNEL_IMAGE_BASE - 0x1000,
        KERNEL_IMAGE_BASE + 0x2000,
        KERNEL_IMAGE_BASE + 0x4000,
    ] {
        assert!(at(v).is_none());
    }
}

#[test]
fn a_teardown_returns_what_it_counts() {
    let mut frames = FrameAllocator::new(vec![FrameUse::Free; 32]);
    let owner = Owner::Domain(1);
    let space = AddressSpace::new(&mut frames, owner).unwrap();
    let rights = Rights::user(true, true, false);
    for i in 0..3 {
        let frame = frames.acquire(owner).unwrap();
        assert!(space.map(0x40_0000 + i * 0x1000, frame, rights, &mut frames, owner).is_ok());
    }
    // The rights of a page are those of its leaf: what came before keeps its own.
    let quiet = Rights { user: false, ..rights };
    assert!(space.map(0x50_0000, Frame { number: 1 }, quiet, &mut frames, owner).is_ok());
    assert_eq!(space.translate(0x40_0000, &frames).unwrap().1 & 6, 6);
    let counts = space.destroy_user_half(&mut frames, owner);
    assert_eq!((counts.data_frames, counts.table_frames), (4, 3));
    assert!(space.translate(0x40_0000, &frames).is_none());
    let retired = frames.uses.iter().filter(|u| **u == FrameUse::Retired(owner)).count();
    assert_eq!(retired, 6);
    let again = space.destroy_user_half(&mut frames, owner);
    assert_eq!((again.data_frames, again.table_frames), (0, 0));
}

#[test]
fn a_reserved_receipt_is_recorded() {
    let mut log = ControlLog::empty();
    while log.count + 1 < log.ordinary_capacity() {
        log.write(receipt(receipt_kind::SERVICE_NOTE, 1));
    }
    assert!(log.reserve() && !log.reserve());
    assert_ne!(log.commit_reserved(receipt(receipt_kind::SERVICE_NOTE, 2)), 0);
    assert_eq!((log.lost, log.pending_reservations), (0, 0));
}

#[test]
fn a_reserved_cell_is_kept_for_its_receipt() {
    let mut log = ControlLog::empty();
    while log.count + 1 < log.ordinary_capacity() {
        log.write(receipt(receipt_kind::SERVICE_NOTE, 1));
    }
    assert!(log.reserve());
    // Nothing else takes the cell.
    assert_eq!(log.write(receipt(receipt_kind::SERVICE_NOTE, 2)), 0);
    assert_eq!(log.lost, 1);
    for _ in 0..CONTROL_LOG_RESERVED {
        assert_ne!(log.write(receipt(receipt_kind::FENCE, 3)), 0);
    }
    assert_eq!(log.write(receipt(receipt_kind::RETIRE, 4)), 0);
    assert_eq!(log.coalesced, 1);
    let next = log.next_sequence;
    assert_eq!(log.commit_reserved(receipt(receipt_kind::SERVICE_NOTE, 5)), next);
    assert_eq!((log.lost, log.count), (1, CONTROL_LOG_CAPACITY));
}

#[test]
fn a_bad_kernel_plan_is_refused() {
    let refused = |plan: &KernelPlan, frames: usize| {
        let mut frames = FrameAllocator::new(vec![FrameUse::Free; frames]);
        build_kernel_space(&mut frames, plan).err().unwrap()
    };
    assert_eq!(refused(&plan(), 4), MapError::OutOfMemory);
    let mut twice = plan();
    twice.data = section(KERNEL_IMAGE_BASE, KERNEL_IMAGE_BASE + 1, true, false);
    assert_eq!(refused(&twice, 32), MapError::AlreadyMapped);
    let mut skewed = plan();
    skewed.text.start += 1;
    assert_eq!(refused(&skewed, 32), MapError::BadAddress);
    let mut bold = plan();
    bold.text.rights.write = true;
    assert!(matches!(refused(&bold, 32), MapError::Rights(_)));
}

fn receipt(kind: u32, a: u64) -> ReceiptRecord {
    ReceiptRecord { kind, a, ..ReceiptRecord::zeroed() }
}

#[test]
fn closing_receipts_find_reserved_cells() {
    let mut log = ControlLog::empty();
    assert!(is_closing(receipt_kind::RETIRE) && !is_closing(receipt_kind::SERVICE_NOTE));
    let ordinary = CONTROL_LOG_CAPACITY - CONTROL_LOG_RESERVED;
    assert_eq!(log.ordinary_capacity(), ordinary);
    for i in 0..ordinary {
        assert_eq!(log.write(receipt(receipt_kind::SERVICE_NOTE, i as u64)), i as u64 + 1);
    }
    assert_eq!(log.write(receipt(receipt_kind::SERVICE_NOTE, 99)), 0);
    assert_eq!(log.lost, 1);
    assert!(!log.can_reserve());
    let sequence = log.write(receipt(receipt_kind::RETIRE, 7));
    assert_eq!(sequence, ordinary as u64 + 1);
    // What was written is what is read, oldest first.
    let batch = log.read(4);
    assert_eq!(batch.len(), 4);
    assert_eq!((batch[0].sequence, batch[0].a), (1, 0));
    assert_eq!(log.acknowledge(2), 2);
    assert_eq!(log.read(1)[0].sequence, 3);
    assert!(log.reserve());
    log.release_reservation();
    assert_eq!(log.occupied(), ordinary - 1);
}

#[test]
fn kernel_stacks_have_their_own_slots() {
    assert_eq!(kstack_slot_base(1) - kstack_slot_base(0), 5 * 4096);
    assert_eq!(ist_slot_base(1) - ist_slot_base(0), 3 * 4096);
}

#[test]
fn states_have_names_and_numbers() {
    assert_eq!(memobj::State::Sealed.abi(), 3);
    assert_eq!(memobj::State::Mutable.name(), "mutable");
    assert_eq!(ipc::State::Resolved.abi(), 3);
    let endpoint = ipc::Endpoint { capacity: 4, reserved_cells: 1, ..ipc::Endpoint::empty() };
    assert_eq!(endpoint.ordinary_capacity(), 3);
    assert!(endpoint.has_ordinary_room());
    let full = ipc::Endpoint { queued: 3, ..endpoint };
    assert!(!full.has_ordinary_room());
}
