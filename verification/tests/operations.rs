//! The interface as a supervisor uses it, from a machine that was just booted.

use thalyx::abi::request::{MemoryBytes, SendRequest};
use thalyx::abi::status::Status;
use thalyx::abi::{boot_handle, boot_slot, cap_lineage, cap_op, object_type, op, outcome, right};
use thalyx::access::user_pieces;
use thalyx::api::calls::{begin_call, end_call, receive, Received};
use thalyx::api::capops;
use thalyx::api::devops::{
    begin_reset, bind_irq, check_master, finish_reset, reset_answer, set_master,
};
use thalyx::api::dispatch::{
    accept_entry, check_entry, invoke, note_refusal, Call, Entry, Host, Invoked, Staging, BODY,
    REFUSAL_RECORD_LIMIT, VERSION_MAJOR, VERSION_MINOR,
};
use thalyx::api::domainops::{begin_unmap, create as create_domain, finish_unmap};
use thalyx::api::evtops::{any_armed, expire, wait, Looked};
use thalyx::api::logops::{push_batch, read as read_log, Read};
use thalyx::api::memops::{
    begin_seal, copy, finish_seal, read as read_memory, write as write_memory,
};
use thalyx::api::scopeops::query;
use thalyx::api::{cap_install, cap_release, Ctx};
use thalyx::arch::x86_64::paging::{AddressSpace, MapError};
use thalyx::boot::{drain_quarantine, protection, reclaim_boot_memory};
use thalyx::device::{
    assign, delivered, is_virtio_block, map_configuration, map_kernel_window, on_interrupt,
    summarize, table_window, transport_features, unclaimed, validate, Bar, Function, Msix,
    Transport, VirtioCap, Windows,
};
use thalyx::domain::{
    activate_in, add_thread_in, create_in, domain_name, reap_dead, terminate_in,
    terminate_on_fault, terminate_voluntarily, CreateError,
};
use thalyx::k2boot::{establish_control_log, establish_root, establish_supervisor};
use thalyx::limits::{CPU_WINDOW_NS, MAX_INVOCATIONS, MAX_MAPS, MAX_MEMORY_OBJECTS};
use thalyx::mm::{FrameAllocator, FrameUse, Owner};
use thalyx::protocol::{module_kind, region_kind, BootModule, MemoryRegion};
use thalyx::scope::{Scope, State as ScopeState};
use thalyx::state::{Cpu, DomainState, ExitReason, FaultRecord, Machine, ThreadState};

const FRAMES: usize = 900;

fn put(bytes: &mut Vec<u8>, at: usize, value: u64, width: usize) {
    for i in 0..width {
        bytes[at + i] = (value >> (8 * i)) as u8;
    }
}

fn program() -> Vec<u8> {
    let mut bytes = vec![0u8; 0x1010];
    bytes[..7].copy_from_slice(&[0x7F, 0x45, 0x4C, 0x46, 2, 1, 1]);
    put(&mut bytes, 16, 2, 2);
    put(&mut bytes, 18, 0x3E, 2);
    put(&mut bytes, 20, 1, 4);
    put(&mut bytes, 24, 0x40_0000, 8);
    put(&mut bytes, 32, 64, 8);
    put(&mut bytes, 52, 64, 2);
    put(&mut bytes, 54, 56, 2);
    put(&mut bytes, 56, 1, 2);
    put(&mut bytes, 64, 1, 4);
    put(&mut bytes, 68, 5, 4);
    put(&mut bytes, 72, 0x1000, 8);
    put(&mut bytes, 80, 0x40_0000, 8);
    put(&mut bytes, 96, 0x10, 8);
    put(&mut bytes, 104, 0x10, 8);
    bytes
}

fn machine() -> Machine {
    let mut uses = vec![FrameUse::Free; FRAMES];
    uses[0] = FrameUse::Reserved;
    uses[1] = FrameUse::Reserved;
    let mut frames = FrameAllocator::new(uses);
    let space = AddressSpace::new(&mut frames, Owner::Kernel).unwrap();
    space.create_kernel_slots(&mut frames).unwrap();
    let mut machine = Machine::new(frames, 77);
    machine.adopt_kernel_space(&space);
    machine.set_cpu(
        0,
        Cpu { online: true, flushed: 0, space: None, current: None, leaving: None },
    );
    machine
}

fn module(name: &str, length: u64) -> BootModule {
    let mut padded = [0u8; 32];
    padded[..name.len()].copy_from_slice(name.as_bytes());
    BootModule {
        name: padded,
        phys_base: 0x9_0000,
        length,
        kind: module_kind::USER_ELF,
        flags: 0,
    }
}

struct World {
    machine: Machine,
    domain: usize,
    thread: usize,
    now: u64,
    answer: Vec<u8>,
}

fn world() -> World {
    let mut machine = machine();
    assert_eq!(establish_root(&mut machine), 0);
    assert_eq!(establish_control_log(&mut machine, 0), Some(0));
    let modules = vec![module("shell", 0x1001), module("empty", 0)];
    let supervisor = establish_supervisor(&mut machine, 0, &program(), &modules).unwrap();
    assert_eq!((supervisor.devices, supervisor.images), (0, 1));
    assert_eq!(supervisor.copies.len(), 1);
    assert_eq!(supervisor.copies[0].length, 0x1001);
    // One page of the image, and the pages of the stack, which start empty.
    assert_eq!(supervisor.loads.len(), 9);
    let domain = supervisor.index;
    assert_eq!(activate_in(&mut machine, domain), Ok(()));
    let thread = machine.domain(domain).threads[0].unwrap() as usize;
    World { machine, domain, thread, now: 1_000, answer: Vec::new() }
}

/// Fields of a descriptor, in order.
#[derive(Default)]
struct Body(Vec<u8>);

impl Body {
    fn w(mut self, value: u32) -> Body {
        self.0.extend_from_slice(&value.to_le_bytes());
        self
    }

    fn d(mut self, value: u64) -> Body {
        self.0.extend_from_slice(&value.to_le_bytes());
        self
    }

    fn b(mut self, bytes: &[u8], len: usize) -> Body {
        let mut run = vec![0u8; len];
        run[..bytes.len()].copy_from_slice(bytes);
        self.0.extend_from_slice(&run);
        self
    }
}

fn body() -> Body {
    Body::default()
}

const SELF_DOMAIN: u32 = boot_slot::SELF_DOMAIN;

impl World {
    fn entry(&mut self, operation: u32, handle: u64, body: Body, flags: u64) -> Invoked {
        let mut entry = Entry {
            handle,
            operation: u64::from(operation),
            descriptor: 0,
            len: 0,
            flags,
            deadline: 0,
        };
        let len = thalyx::abi::operations::spec(operation).unwrap().descriptor_len;
        if len != 0 {
            entry.descriptor = 0x40_0000;
            entry.len = u64::from(len);
        }
        let row = check_entry(&entry).unwrap();
        let mut staging = Staging::new(len as usize);
        if len != 0 {
            put(&mut staging.bytes, 0, u64::from(VERSION_MAJOR), 2);
            put(&mut staging.bytes, 2, u64::from(VERSION_MINOR), 2);
            put(&mut staging.bytes, 4, u64::from(operation), 4);
            put(&mut staging.bytes, 12, u64::from(len), 4);
            put(&mut staging.bytes, 16, 0xC00C1E, 8);
            assert!(BODY + body.0.len() <= len as usize);
            staging.bytes[BODY..BODY + body.0.len()].copy_from_slice(&body.0);
        }
        let call =
            Call { domain: self.domain, thread: self.thread, entry, now: self.now, copied: true };
        let host = Host { cpu: 0, pending: 0, destination: 0 };
        let (outcome, _) = invoke(&mut self.machine, &call, &row, &mut staging, &host);
        self.answer = if staging.filled { staging.bytes } else { Vec::new() };
        outcome
    }

    fn run(&mut self, operation: u32, handle: u64, body: Body) -> Result<u64, Status> {
        match self.entry(operation, handle, body, 0) {
            Invoked::Done(value) => Ok(value),
            Invoked::Refused(code) => Err(code),
            Invoked::Stepwise(_) => panic!("runs in steps"),
        }
    }

    fn steps(&mut self, operation: u32, handle: u64, body: Body, flags: u64) -> Ctx {
        match self.entry(operation, handle, body, flags) {
            Invoked::Stepwise(ctx) => ctx,
            other => panic!("{other:?}"),
        }
    }

    fn word(&self, at: usize) -> u32 {
        thalyx::bytes::read_u32(&self.answer, BODY + at).unwrap()
    }

    fn long(&self, at: usize) -> u64 {
        thalyx::bytes::read_u64(&self.answer, BODY + at).unwrap()
    }

    fn memory(&mut self, pages: u64, rights: u32) -> u64 {
        let scope = boot_handle(boot_slot::SELF_SCOPE);
        let request = body().d(pages).w(rights).w(0).b(b"data", 16);
        self.run(op::SCOPE_CREATE_MEMORY, scope, request).unwrap()
    }

    fn endpoint(&mut self, capacity: u32) -> u64 {
        let scope = boot_handle(boot_slot::SELF_SCOPE);
        let request = body().w(capacity).w(0).b(b"port", 16);
        let endpoint = self.run(op::SCOPE_CREATE_ENDPOINT, scope, request).unwrap();
        // The first domain that receives becomes the receiver.
        assert_eq!(
            self.run(op::ENDPOINT_SEND, endpoint, message(b"early", &[])),
            Err(Status::PeerDead)
        );
        let ctx = self.steps(op::ENDPOINT_RECEIVE, endpoint, body(), 1);
        assert!(matches!(receive(&mut self.machine, &ctx, self.now), Err(Status::WouldBlock)));
        endpoint
    }

    fn signal(&mut self) -> u64 {
        let scope = boot_handle(boot_slot::SELF_SCOPE);
        self.run(op::SCOPE_CREATE_SIGNAL, scope, body()).unwrap()
    }

    fn child(&mut self, pages: u64) -> Result<u64, Status> {
        let scope = boot_handle(boot_slot::SELF_SCOPE);
        self.run(
            op::SCOPE_CREATE_CHILD,
            scope,
            limits(pages).b(b"child", 16),
        )
    }

    fn rights(&mut self, handle: u64) -> u64 {
        self.run(op::CAP_INSPECT, handle, body()).unwrap()
    }
}

fn limits(pages: u64) -> Body {
    body().d(pages).d(64).d(1_000_000).d(4096).d(1000).w(2).w(0)
}

fn message(text: &[u8], caps: &[(u64, u32)]) -> Body {
    let mut fields = body().w(text.len() as u32).w(caps.len() as u32);
    for i in 0..4 {
        fields = fields.d(caps.get(i).map_or(0, |cap| cap.0));
    }
    for i in 0..4 {
        fields = fields.w(caps.get(i).map_or(0, |cap| cap.1));
    }
    fields.b(text, 256)
}

fn reply_body(text: &[u8], result: u64) -> Body {
    let mut fields = body().w(text.len() as u32).w(0);
    for _ in 0..4 {
        fields = fields.d(0);
    }
    for _ in 0..4 {
        fields = fields.w(0);
    }
    fields.d(result).b(text, 256)
}

#[test]
fn a_supervisor_starts_with_its_manifest() {
    let mut w = world();
    let scope = boot_handle(boot_slot::SELF_SCOPE);
    assert!(w.run(op::CAP_INSPECT, boot_handle(SELF_DOMAIN), body()).is_ok());
    assert_eq!(w.word(0), object_type::DOMAIN);
    assert!(w.run(op::CAP_INSPECT, scope, body()).is_ok());
    assert_eq!(w.word(0), object_type::SCOPE);
    assert_eq!(w.word(12), cap_lineage::LIVE);
    assert!(w.run(op::CAP_INSPECT, boot_handle(boot_slot::CONTROL_LOG), body()).is_ok());
    let image = boot_handle(boot_slot::FIRST_MODULE);
    assert_eq!(w.run(op::MEMORY_QUERY, image, body()), Ok(2));
    // Sealed, two pages, labelled with the module's name.
    assert_eq!(w.word(0), 3);
    assert_eq!(&w.answer[BODY + 40..BODY + 45], b"shell");
    assert_eq!(
        w.run(op::CAP_INSPECT, boot_handle(boot_slot::FIRST_DEVICE), body()),
        Err(Status::InvalidHandle)
    );
    assert_eq!(domain_name(&w.machine, w.domain), b"supervisor".to_vec());
    assert_eq!(w.machine.domain(w.domain).refusals, 1);
}

#[test]
fn answers_carry_the_callers_word_and_nothing_else() {
    let mut w = world();
    let domain = boot_handle(SELF_DOMAIN);
    assert_eq!(w.run(op::DOMAIN_QUERY, domain, body().d(u64::MAX).d(u64::MAX)), Ok(2));
    let header = w.answer[..BODY].to_vec();
    assert_eq!(thalyx::bytes::read_u64(&header, 16), Some(0xC00C1E));
    assert_eq!(thalyx::bytes::read_u32(&header, 8), Some(0));
    assert_eq!(w.word(8), 0);
    assert_eq!(w.word(4), 1);
}

#[test]
fn entries_are_checked_before_anything_is_read() {
    let entry = Entry {
        handle: 0,
        operation: u64::from(op::CAP_COPY),
        descriptor: 0,
        len: 0,
        flags: 0,
        deadline: 0,
    };
    let refused = |entry: Entry| check_entry(&entry).err().unwrap();
    assert_eq!(check_entry(&entry).unwrap().name, "cap_copy");
    assert_eq!(
        refused(Entry { operation: 1 << 32, ..entry }),
        (0, Status::InvalidArgument)
    );
    assert_eq!(
        refused(Entry { operation: 0x1_000C, ..entry }),
        (0x1_000C, Status::NotSupported)
    );
    assert_eq!(refused(Entry { operation: 0, ..entry }), (0, Status::NotSupported));
    assert_eq!(refused(Entry { flags: 2, ..entry }).1, Status::InvalidArgument);
    assert_eq!(refused(Entry { flags: 1, ..entry }).1, Status::InvalidArgument);
    assert_eq!(refused(Entry { len: 8, ..entry }).1, Status::InvalidArgument);
    assert_eq!(refused(Entry { descriptor: 8, ..entry }).1, Status::InvalidArgument);
    let wait = Entry { operation: u64::from(op::SIGNAL_WAIT), flags: 1, len: 64, ..entry };
    let len = u64::from(thalyx::abi::operations::spec(op::SIGNAL_WAIT).unwrap().descriptor_len);
    assert!(check_entry(&Entry { len, ..wait }).is_ok());
    assert_eq!(refused(Entry { len: len + 8, ..wait }).1, Status::InvalidArgument);
    // A refusal is counted against the domain it comes from.
    let mut w = world();
    let (machine, domain) = (&mut w.machine, w.domain);
    let mut reached = thalyx::abi::operations::Reached::new();
    assert!(accept_entry(machine, &mut reached, domain, &entry).is_ok());
    assert_eq!(machine.domain(domain).refusals, 0);
    let bad = Entry { flags: 2, ..entry };
    assert_eq!(
        accept_entry(machine, &mut reached, domain, &bad).err().unwrap(),
        (op::CAP_COPY, Status::InvalidArgument, true)
    );
    assert_eq!(machine.domain(domain).refusals, 1);
    assert!(!accept_entry(machine, &mut reached, 99, &bad).err().unwrap().2);
    // What is refused for its flags was reached; what is not assigned was not.
    let bits = reached.operations_reached();
    let wrong = Entry { operation: u64::from(op::CAP_FENCE), flags: 2, ..entry };
    assert!(accept_entry(machine, &mut reached, domain, &wrong).is_err());
    assert_ne!(reached.operations_reached(), bits);
    let bits = reached.operations_reached();
    let unknown = Entry { operation: 0x1_000C, ..entry };
    assert!(accept_entry(machine, &mut reached, domain, &unknown).is_err());
    assert_eq!(reached.operations_reached(), bits);
}

#[test]
fn operations_have_their_own_bits() {
    let mut reached = thalyx::abi::operations::Reached::new();
    let first = thalyx::abi::operations::spec(op::CAP_INSPECT).unwrap();
    let last = thalyx::abi::operations::spec(op::DEVICE_RESET).unwrap();
    assert_eq!((first.position, last.position), (0, 58));
    reached.mark_reached(&last);
    reached.mark_reached(&first);
    reached.mark_reached(&first);
    assert_eq!(reached.operations_reached(), 1 | (1 << 58));
    assert_eq!(thalyx::abi::operations::operation_name(op::LOG_ACK), "log_ack");
    assert_eq!(thalyx::abi::operations::operation_name(0xB_0001), "unassigned");
}

#[test]
fn headers_must_agree_with_the_operation() {
    let mut w = world();
    let row = thalyx::abi::operations::spec(op::CAP_INSPECT).unwrap();
    let entry = Entry {
        handle: boot_handle(SELF_DOMAIN),
        operation: u64::from(row.code),
        descriptor: 0x40_0000,
        len: u64::from(row.descriptor_len),
        flags: 0,
        deadline: 0,
    };
    let call = Call { domain: w.domain, thread: w.thread, entry, now: 1, copied: true };
    let host = Host { cpu: 0, pending: 0, destination: 0 };
    let mut attempt = |at: usize, value: u8| {
        let mut staging = Staging::new(row.descriptor_len as usize);
        put(&mut staging.bytes, 2, u64::from(VERSION_MINOR), 2);
        put(&mut staging.bytes, 4, u64::from(row.code), 4);
        put(&mut staging.bytes, 12, u64::from(row.descriptor_len), 4);
        staging.bytes[at] = value;
        invoke(&mut w.machine, &call, &row, &mut staging, &host).0
    };
    assert!(matches!(attempt(40, 9), Invoked::Done(_)));
    assert_eq!(attempt(0, 1), Invoked::Refused(Status::IncompatibleVersion));
    assert_eq!(attempt(2, 3), Invoked::Refused(Status::IncompatibleVersion));
    assert_eq!(attempt(4, 9), Invoked::Refused(Status::InvalidArgument));
    assert_eq!(attempt(8, 1), Invoked::Refused(Status::InvalidArgument));
    assert_eq!(attempt(13, 9), Invoked::Refused(Status::InvalidArgument));
    assert_eq!(attempt(24, 1), Invoked::Refused(Status::InvalidArgument));
}

#[test]
fn refusals_are_recorded_up_to_a_bound() {
    let mut w = world();
    let recorded = (0..100).filter(|_| note_refusal(&mut w.machine, w.domain)).count();
    assert_eq!(recorded, REFUSAL_RECORD_LIMIT as usize);
    assert_eq!(w.machine.domain(w.domain).refusals, 100);
    assert!(!note_refusal(&mut w.machine, 99));
}

#[test]
fn derivation_only_narrows() {
    let mut w = world();
    let memory = w.memory(1, right::MEMORY_READ | right::MEMORY_WRITE | right::MEMORY_MAP);
    let full = w.rights(memory) as u32;
    assert_ne!(full & right::MEMORY_WRITE, 0);
    let request = |mask: u32| body().w(mask).w(0).d(0).d(0);
    let narrow = w
        .run(op::CAP_DERIVE, memory, request(right::MEMORY_READ | right::DERIVE | right::INSPECT))
        .unwrap();
    assert_eq!(
        w.rights(narrow) as u32,
        right::MEMORY_READ | right::DERIVE | right::INSPECT
    );
    let wider = w.run(op::CAP_DERIVE, narrow, request(full));
    assert_eq!(wider, Err(Status::InsufficientRights));
    let plain = w.run(op::CAP_DERIVE, narrow, request(right::MEMORY_READ)).unwrap();
    assert_eq!(
        w.run(op::CAP_INSPECT, plain, body()),
        Err(Status::InsufficientRights)
    );
}

#[test]
fn a_fence_stops_every_descendant() {
    let mut w = world();
    let memory = w.memory(1, right::MEMORY_READ);
    let request = body().w(0xF | right::MEMORY_READ).w(0).d(0).d(0);
    let narrow = w.run(op::CAP_DERIVE, memory, request).unwrap();
    let twin = w.run(op::CAP_COPY, narrow, body()).unwrap();
    assert_eq!(w.run(op::MEMORY_QUERY, twin, body()), Ok(1));
    assert_eq!(w.run(op::CAP_FENCE, memory, body()), Ok(2));
    assert_eq!(w.run(op::MEMORY_QUERY, twin, body()), Err(Status::ScopeClosed));
    assert_eq!(w.run(op::MEMORY_QUERY, memory, body()), Err(Status::ScopeClosed));
    // What a dead lineage still is can be asked, and its handle given up.
    assert!(w.run(op::CAP_INSPECT, twin, body()).is_ok());
    assert_eq!(w.word(12), cap_lineage::FENCED);
    assert!(w.run(op::CAP_DRAIN_STATUS, memory, body()).is_ok());
    assert_eq!(w.run(op::CAP_CLOSE, twin, body()), Ok(0));
    assert_eq!(w.run(op::CAP_CLOSE, twin, body()), Err(Status::InvalidHandle));
}

#[test]
fn handles_are_of_one_kind() {
    let mut w = world();
    let signal = w.signal();
    assert_eq!(w.run(op::MEMORY_QUERY, signal, body()), Err(Status::WrongType));
    assert_eq!(w.run(op::SIGNAL_QUERY, 0, body()), Err(Status::InvalidHandle));
    assert_eq!(w.run(op::SIGNAL_QUERY, signal, body()), Ok(0));
}

#[test]
fn a_grant_expires() {
    let mut w = world();
    let signal = w.signal();
    let request = body().w(0xF | right::SIGNAL_RAISE).w(0).d(5_000).d(0);
    let brief = w.run(op::CAP_DERIVE, signal, request).unwrap();
    assert_eq!(w.run(op::SIGNAL_RAISE, brief, body().d(1)), Ok(1));
    w.now = 5_000;
    assert_eq!(w.run(op::SIGNAL_RAISE, brief, body().d(1)), Err(Status::Expired));
    assert_eq!(w.run(op::SIGNAL_RAISE, signal, body().d(1)), Ok(2));
}

#[test]
fn scopes_are_carved_fenced_and_retired() {
    let mut w = world();
    assert_eq!(w.child(u64::MAX), Err(Status::LimitExhausted));
    let child = w.child(8).unwrap();
    assert_eq!(w.run(op::SCOPE_QUERY, child, body()), Ok(0));
    assert_eq!(w.long(0), 8);
    assert_eq!(w.run(op::SCOPE_SET_LIMITS, child, limits(9)), Ok(0));
    assert_eq!(w.run(op::SCOPE_QUERY, child, body()), Ok(0));
    assert_eq!(w.long(0), 9);
    let request = body().d(10).w(right::MEMORY_READ).w(0).b(b"", 16);
    assert_eq!(
        w.run(op::SCOPE_CREATE_MEMORY, child, request),
        Err(Status::LimitExhausted)
    );
    let request = body().d(9).w(right::MEMORY_READ).w(0).b(b"", 16);
    let memory = w.run(op::SCOPE_CREATE_MEMORY, child, request).unwrap();
    assert_eq!(w.run(op::SCOPE_RETIRE, child, body()), Err(Status::StateConflict));
    assert_eq!(w.run(op::SCOPE_FENCE, child, body()), Ok(1));
    // Fencing again closes nothing more, and the perimeter takes nothing new.
    assert_eq!(w.run(op::SCOPE_FENCE, child, body()), Ok(0));
    let request = body().d(1).w(right::MEMORY_READ).w(0).b(b"", 16);
    assert_eq!(
        w.run(op::SCOPE_CREATE_MEMORY, child, request),
        Err(Status::ScopeClosed)
    );
    assert_eq!(w.run(op::MEMORY_QUERY, memory, body()), Ok(9));
}

#[test]
fn a_retired_perimeter_gives_everything_back() {
    let mut w = world();
    let free = w.machine.available();
    let child = w.child(8).unwrap();
    let request = body().d(8).w(right::MEMORY_READ).w(0).b(b"", 16);
    w.run(op::SCOPE_CREATE_MEMORY, child, request).unwrap();
    assert_eq!(w.machine.available(), free - 8);
    let index = 3;
    assert_eq!(w.machine.scope(index).state, ScopeState::Open);
    assert_eq!(w.machine.scope(index).memory_pages, 8);
    // Nothing is left to finish, so the perimeter is quiescent at once.
    assert_eq!(w.run(op::SCOPE_FENCE, child, body()), Ok(1));
    assert_eq!(w.machine.scope(index).state, ScopeState::Quiescent);
    assert_eq!(w.run(op::SCOPE_DRAIN_STATUS, child, body()), Ok(0));
    assert_eq!(w.long(24), 8);
    assert!(w.run(op::SCOPE_RETIRE, child, body()).is_ok());
    assert_eq!(w.machine.scope(index).state, ScopeState::Retired);
    assert_eq!(w.machine.scope(index).memory_pages, 0);
    assert_eq!(w.run(op::SCOPE_RETIRE, child, body()), Ok(0));
    w.machine.set_cpu(
        0,
        Cpu { online: true, flushed: u64::MAX, space: None, current: None, leaving: None },
    );
    drain_quarantine(&mut w.machine);
    assert_eq!(w.machine.available(), free);
}

#[test]
fn signals_and_timers() {
    let mut w = world();
    let scope = boot_handle(boot_slot::SELF_SCOPE);
    let signal = w.signal();
    assert_eq!(
        w.run(op::SCOPE_CREATE_TIMER, scope, body().d(signal).d(0)),
        Err(Status::InvalidArgument)
    );
    let timer = w.run(op::SCOPE_CREATE_TIMER, scope, body().d(signal).d(4)).unwrap();
    assert!(!any_armed(&w.machine));
    assert_eq!(w.run(op::TIMER_ARM, timer, body().d(0)), Err(Status::InvalidArgument));
    assert_eq!(w.run(op::TIMER_ARM, timer, body().d(9_000)), Ok(9_000));
    assert!(any_armed(&w.machine));
    assert_eq!(expire(&mut w.machine, 8_999), 0);
    assert_eq!(expire(&mut w.machine, 9_000), 1);
    assert_eq!(expire(&mut w.machine, 9_001), 0);
    assert_eq!(w.run(op::TIMER_QUERY, timer, body()), Ok(1));
    assert_eq!(w.word(0), 0);
    assert_eq!(w.run(op::SIGNAL_QUERY, signal, body()), Ok(4));
    assert_eq!(w.run(op::SIGNAL_RAISE, signal, body().d(0)), Err(Status::InvalidArgument));
    assert_eq!(w.run(op::TIMER_ARM, timer, body().d(10_000)), Ok(10_000));
    assert_eq!(w.run(op::TIMER_CANCEL, timer, body()), Ok(0));
    assert_eq!(expire(&mut w.machine, 99_999), 0);
}

#[test]
fn a_wait_consumes_what_it_asked_for() {
    let mut w = world();
    let signal = w.signal();
    w.run(op::SIGNAL_RAISE, signal, body().d(6)).unwrap();
    let ctx = w.steps(op::SIGNAL_WAIT, signal, body().d(2), 0);
    match wait(&mut w.machine, &ctx, 2, 1_000) {
        Ok(Looked::Bits(info)) => assert_eq!(info.bits, 2),
        _ => panic!("no bits"),
    }
    assert_eq!(w.run(op::SIGNAL_QUERY, signal, body()), Ok(4));
    let ctx = w.steps(op::SIGNAL_WAIT, signal, body().d(2), 1);
    assert!(matches!(wait(&mut w.machine, &ctx, 2, 1_000), Err(Status::WouldBlock)));
    assert!(matches!(wait(&mut w.machine, &ctx, 0, 1_000), Err(Status::InvalidArgument)));
    let ctx = w.steps(op::SIGNAL_WAIT, signal, body().d(2), 0);
    assert!(matches!(wait(&mut w.machine, &ctx, 2, 1_000), Ok(Looked::Asleep)));
    assert_eq!(w.machine.thread(w.thread).state, ThreadState::Blocked);
    // A raise of the bits it waits for wakes it.
    w.run(op::SIGNAL_RAISE, signal, body().d(2)).unwrap();
    assert_eq!(w.machine.thread(w.thread).state, ThreadState::Ready);
}

#[test]
fn messages_are_admitted_delivered_and_answered() {
    let mut w = world();
    let endpoint = w.endpoint(2);
    let id = w.run(op::ENDPOINT_SEND, endpoint, message(b"hello", &[])).unwrap();
    assert_eq!(w.run(op::ENDPOINT_QUERY, endpoint, body()), Ok(1));
    let ctx = w.steps(op::ENDPOINT_RECEIVE, endpoint, body(), 1);
    let (ticket, got) = match receive(&mut w.machine, &ctx, 1_000) {
        Ok(Received::Message(ticket, got)) => (ticket, got),
        _ => panic!("no message"),
    };
    assert_eq!(&got.payload[..5], b"hello");
    assert_eq!(got.header.invocation_id, id);
    assert_eq!(got.header.payload_len, 5);
    assert_eq!(w.run(op::ENDPOINT_QUERY, endpoint, body()), Ok(0));
    assert!(matches!(receive(&mut w.machine, &ctx, 1_000), Err(Status::WouldBlock)));
    // Nobody waits for a reply to a plain message: it is resolved.
    assert_eq!(
        w.run(op::INVOCATION_REPLY, ticket, reply_body(b"", 1)),
        Err(Status::StateConflict)
    );
    let done = || body().w(outcome::ABORTED).w(0).d(0);
    assert_eq!(w.run(op::INVOCATION_RESOLVE, ticket, done()), Ok(id));
    assert_eq!(
        w.run(op::INVOCATION_REPLY, ticket, reply_body(b"", 1)),
        Err(Status::AlreadyResolved)
    );
    let oversized = message(b"", &[]);
    let mut bytes = oversized.0;
    bytes[0] = 1;
    bytes[1] = 1;
    assert_eq!(
        w.run(op::ENDPOINT_SEND, endpoint, Body(bytes)),
        Err(Status::InvalidArgument)
    );
}

#[test]
fn a_full_queue_refuses() {
    let mut w = world();
    let endpoint = w.endpoint(1);
    assert!(w.run(op::ENDPOINT_SEND, endpoint, message(b"a", &[])).is_ok());
    assert_eq!(
        w.run(op::ENDPOINT_SEND, endpoint, message(b"b", &[])),
        Err(Status::QueueFull)
    );
    assert_eq!(w.run(op::ENDPOINT_QUERY, endpoint, body()), Ok(1));
}

#[test]
fn capabilities_travel_with_messages() {
    let mut w = world();
    let endpoint = w.endpoint(2);
    let signal = w.signal();
    w.run(op::ENDPOINT_SEND, endpoint, message(b"x", &[(signal, cap_op::COPY)])).unwrap();
    let ctx = w.steps(op::ENDPOINT_RECEIVE, endpoint, body(), 1);
    let got = match receive(&mut w.machine, &ctx, 1_000) {
        Ok(Received::Message(_, got)) => got,
        _ => panic!("no message"),
    };
    assert_eq!(got.cap_count, 1);
    assert_ne!(got.caps[0], signal);
    assert_eq!(w.run(op::SIGNAL_RAISE, got.caps[0], body().d(8)), Ok(1));
    assert_eq!(w.run(op::SIGNAL_QUERY, signal, body()), Ok(8));
    // A capability that is moved leaves its sender.
    w.run(op::ENDPOINT_SEND, endpoint, message(b"y", &[(signal, cap_op::MOVE)])).unwrap();
    assert_eq!(w.run(op::SIGNAL_QUERY, signal, body()), Err(Status::InvalidHandle));
}

#[test]
fn a_call_ends_with_its_reply() {
    let mut w = world();
    let endpoint = w.endpoint(2);
    let ctx = w.steps(op::ENDPOINT_CALL, endpoint, message(b"ask", &[]), 0);
    let mut payload = [0u8; 256];
    payload[..3].copy_from_slice(b"ask");
    let request = SendRequest {
        payload_len: 3,
        cap_count: 0,
        caps: [0; 4],
        cap_ops: [0; 4],
        payload,
    };
    let admitted = begin_call(&mut w.machine, &ctx, &request).unwrap();
    assert_eq!(w.machine.thread(w.thread).state, ThreadState::Blocked);
    let ctx = w.steps(op::ENDPOINT_RECEIVE, endpoint, body(), 1);
    let ticket = match receive(&mut w.machine, &ctx, 1_000) {
        Ok(Received::Message(ticket, _)) => ticket,
        _ => panic!("no message"),
    };
    assert_eq!(w.run(op::INVOCATION_REPLY, ticket, reply_body(b"yes", 42)), Ok(admitted.id));
    assert_eq!(w.machine.thread(w.thread).state, ThreadState::Ready);
    let ended = end_call(
        &mut w.machine,
        admitted.invocation,
        admitted.generation,
        Status::Success,
        1_100,
    )
    .unwrap();
    let reply = ended.reply.unwrap();
    assert_eq!(reply.result, 42);
    assert_eq!(&reply.payload[..3], b"yes");
}

#[test]
fn effects_are_admitted_and_resolved_once() {
    let mut w = world();
    let endpoint = w.endpoint(2);
    w.run(op::ENDPOINT_SEND, endpoint, message(b"work", &[])).unwrap();
    let ctx = w.steps(op::ENDPOINT_RECEIVE, endpoint, body(), 1);
    let ticket = match receive(&mut w.machine, &ctx, 1_000) {
        Ok(Received::Message(ticket, _)) => ticket,
        _ => panic!("no message"),
    };
    assert!(w.run(op::INVOCATION_BIND_WORKER, ticket, body()).is_ok());
    assert!(w.run(op::INVOCATION_BEGIN_EFFECT, ticket, body().w(1).w(0).d(0)).is_ok());
    assert!(w.run(op::INVOCATION_BEGIN_EFFECT, ticket, body().w(1).w(0).d(0)).is_err());
    assert!(w.run(op::INVOCATION_QUERY, ticket, body()).is_ok());
    assert_eq!(
        w.run(op::INVOCATION_RESOLVE, ticket, body().w(9).w(0).d(0)),
        Err(Status::InvalidArgument)
    );
    assert!(w
        .run(op::INVOCATION_RESOLVE, ticket, body().w(outcome::COMMITTED).w(0).d(0))
        .is_ok());
    assert_eq!(
        w.run(op::INVOCATION_RESOLVE, ticket, body().w(outcome::COMMITTED).w(0).d(0)),
        Err(Status::AlreadyResolved)
    );
}

#[test]
fn facets_are_assigned_by_the_kernel() {
    let mut w = world();
    let endpoint = w.endpoint(2);
    let request = |facet: u64| body().w(right::ENDPOINT_SEND | right::INSPECT).w(0).d(facet).d(0);
    assert_eq!(
        w.run(op::ENDPOINT_BIND_FACET, endpoint, request(5)),
        Err(Status::InvalidArgument)
    );
    let first = w.run(op::ENDPOINT_BIND_FACET, endpoint, request(0)).unwrap();
    let second = w.run(op::ENDPOINT_BIND_FACET, endpoint, request(0)).unwrap();
    w.rights(first);
    let one = w.long(56);
    w.rights(second);
    let two = w.long(56);
    assert!(one != 0 && two != 0 && one != two);
    // A facet has no right its parent lacks.
    let request = |mask: u32| body().w(mask).w(0).d(0).d(0);
    let narrow = right::ENDPOINT_SEND | right::ENDPOINT_BIND | right::INSPECT;
    let parent = w.run(op::CAP_DERIVE, endpoint, request(narrow)).unwrap();
    assert_eq!(
        w.run(op::ENDPOINT_BIND_FACET, parent, request(narrow | right::ENDPOINT_RECEIVE)),
        Err(Status::InsufficientRights)
    );
    let facet = w.run(op::ENDPOINT_BIND_FACET, parent, request(right::ENDPOINT_SEND | right::INSPECT));
    assert_eq!(w.rights(facet.unwrap()) as u32, right::ENDPOINT_SEND | right::INSPECT);
}

#[test]
fn the_control_log_is_read_and_acknowledged() {
    let mut w = world();
    let log = boot_handle(boot_slot::CONTROL_LOG);
    let note = |reserved: u32| body().w(7).w(reserved).d(123).d(1).d(2);
    assert_eq!(w.run(op::LOG_APPEND, log, note(1)), Err(Status::InvalidArgument));
    let sequence = w.run(op::LOG_APPEND, log, note(0)).unwrap();
    assert_eq!(w.run(op::LOG_QUERY, log, body()), Ok(1));
    let ctx = w.steps(op::LOG_READ, log, body(), 1);
    match read_log(&mut w.machine, &ctx, 1_000, true) {
        Ok(Read::Batch(batch)) => {
            let last = batch.records.last().unwrap();
            assert_eq!(last.sequence, sequence);
            // The kernel states the origin, whatever was claimed.
            assert_ne!(last.origin_domain_id, 123);
            assert_eq!(last.origin_domain_id, w.machine.domain(w.domain).id);
        }
        _ => panic!("no batch"),
    }
    assert_eq!(w.run(op::LOG_ACK, log, body().d(sequence)), Ok(1));
    assert_eq!(w.run(op::LOG_QUERY, log, body()), Ok(0));
}

#[test]
fn memory_is_written_read_and_copied() {
    let mut w = world();
    let memory = w.memory(1, right::MEMORY_READ | right::MEMORY_WRITE);
    let mut contents = vec![0u8; 4096];
    let mut bytes = [0u8; 256];
    bytes[..3].copy_from_slice(b"abc");
    let request = MemoryBytes { offset: 4094, length: 2, bytes };
    let ctx = w.steps(op::MEMORY_WRITE, memory, body(), 0);
    assert_eq!(write_memory(&w.machine, &ctx, &request, &mut contents), Ok(2));
    assert_eq!(&contents[4094..], b"ab");
    let far = MemoryBytes { offset: 4095, length: 2, bytes };
    assert_eq!(
        write_memory(&w.machine, &ctx, &far, &mut contents),
        Err(Status::InvalidArgument)
    );
    let ctx = w.steps(op::MEMORY_READ, memory, body(), 0);
    let got = read_memory(&w.machine, &ctx, 4095, 1, &contents).unwrap();
    assert_eq!((got.length, got.bytes[0], got.bytes[1]), (1, b'b', 0));
    assert!(read_memory(&w.machine, &ctx, u64::MAX, 1, &contents).is_err());
    let other = w.memory(1, right::MEMORY_READ | right::MEMORY_WRITE);
    let ctx = w.steps(op::MEMORY_COPY, other, body(), 0);
    let mut target = vec![0u8; 4096];
    let request = thalyx::abi::request::MemoryCopyRequest {
        source_handle: memory,
        source_offset: 4094,
        dest_offset: 1,
        length: 2,
    };
    assert_eq!(copy(&w.machine, &ctx, &request, &contents, &mut target), Ok(2));
    assert_eq!(&target[..4], &[0, b'a', b'b', 0]);
}

fn map_body(memory: u64, vaddr: u64, pages: u32, rights: u32) -> Body {
    body().d(memory).d(vaddr).w(0).w(pages).w(rights).w(0)
}

#[test]
fn mappings_follow_rights_and_seals() {
    let mut w = world();
    let domain = boot_handle(SELF_DOMAIN);
    let all = right::MEMORY_READ | right::MEMORY_WRITE | right::MEMORY_MAP | right::MEMORY_SEAL;
    let memory = w.memory(2, all);
    let rw = right::MEMORY_READ | right::MEMORY_WRITE;
    assert_eq!(w.run(op::DOMAIN_MAP, domain, map_body(memory, 0x1000_0000, 2, rw)), Ok(2));
    assert!(w.machine.translate(w.domain, 0x1000_1000).is_some());
    assert!(w.machine.translate(w.domain, 0x1000_2000).is_none());
    assert!(w.run(op::DOMAIN_MAP, domain, map_body(memory, 0x1000_1000, 1, rw)).is_err());
    assert!(w.run(op::DOMAIN_MAP, domain, map_body(memory, 0x2000_0001, 1, rw)).is_err());
    assert!(w
        .run(op::DOMAIN_MAP, domain, map_body(memory, 0x2000_0000, 1, rw | right::MEMORY_EXECUTE))
        .is_err());
    // A seal withdraws the writer first.
    let ctx = w.steps(op::MEMORY_SEAL, memory, body(), 0);
    let sealing = begin_seal(&mut w.machine, &ctx, 1_000, 0);
    assert!(sealing.is_ok());
    assert!(w.machine.translate(w.domain, 0x1000_1000).is_none());
    assert_eq!(w.run(op::MEMORY_QUERY, memory, body()), Ok(2));
    assert_eq!(w.word(0), 2);
    assert!(w.run(op::DOMAIN_MAP, domain, map_body(memory, 0x3000_0000, 1, rw)).is_err());
    let index = (0..24).find(|i| w.machine.memory(*i).state == thalyx::memobj::State::Sealing);
    let index = index.unwrap();
    let generation = w.machine.memory(index).generation;
    assert!(finish_seal(&mut w.machine, index, generation, false).is_err());
    let info = finish_seal(&mut w.machine, index, generation, true).unwrap();
    assert_eq!((info.state, info.writable_maps), (3, 0));
    assert_eq!(
        w.run(op::DOMAIN_MAP, domain, map_body(memory, 0x3000_0000, 1, right::MEMORY_READ)),
        Ok(1)
    );
    let unmap = thalyx::abi::request::UnmapRequest {
        vaddr: 0x3000_0000,
        page_count: 1,
        reserved0: 0,
    };
    let ctx = w.steps(op::DOMAIN_UNMAP, domain, body().d(0x3000_0000).w(1).w(0), 0);
    assert_eq!(begin_unmap(&mut w.machine, &ctx, &unmap, 1_000, 0), Ok(1));
    assert!(w.machine.translate(w.domain, 0x3000_0000).is_none());
    assert_eq!(finish_unmap(1, true), Ok(1));
    assert_eq!(finish_unmap(1, false), Err(Status::DrainIncomplete));
}

fn new_domain(w: &mut World) -> (u64, usize) {
    let scope = boot_handle(boot_slot::SELF_SCOPE);
    let image = boot_handle(boot_slot::FIRST_MODULE);
    let ctx = w.steps(op::SCOPE_CREATE_DOMAIN, scope, body().d(image).b(b"worker", 16), 0);
    let mut name = [0u8; 16];
    name[..6].copy_from_slice(b"worker");
    let request = thalyx::abi::request::DomainCreateRequest { image_handle: image, name };
    let made = create_domain(&mut w.machine, &ctx, &request, &program()).unwrap();
    let filled: Vec<_> = made.loads.iter().filter(|load| load.len > 0).collect();
    assert_eq!(filled.len(), 1);
    assert_eq!((filled[0].offset, filled[0].len), (0x1000, 0x10));
    (made.handle, made.index)
}

#[test]
fn a_mapping_stays_in_its_domain() {
    let mut w = world();
    let (_, other) = new_domain(&mut w);
    let stack = 0x7FFF_FFFF_E000;
    let before = w.machine.translate(other, stack);
    assert!(before.is_some());
    let memory = w.memory(1, right::MEMORY_READ | right::MEMORY_MAP);
    let request = map_body(memory, 0x1000_0000, 1, right::MEMORY_READ);
    assert_eq!(w.run(op::DOMAIN_MAP, boot_handle(SELF_DOMAIN), request), Ok(1));
    assert!(w.machine.translate(w.domain, 0x1000_0000).is_some());
    assert!(w.machine.translate(other, 0x1000_0000).is_none());
    assert_eq!(w.machine.translate(other, stack), before);
}

#[test]
fn collecting_past_a_table_changes_nothing() {
    let mut w = world();
    let pages = w.machine.available();
    thalyx::api::collect_invocation(&mut w.machine, MAX_INVOCATIONS);
    thalyx::api::memops::collect_memory(&mut w.machine, MAX_MEMORY_OBJECTS);
    thalyx::api::memops::collect_memory_acked(&mut w.machine, usize::MAX, true);
    assert_eq!(w.machine.available(), pages);
}

#[test]
fn a_kernel_mapping_is_seen_from_every_space() {
    let mut w = world();
    let (_, index) = new_domain(&mut w);
    let window = thalyx::layout::MMIO_AREA;
    let root = w.machine.domain(index).space.unwrap();
    let space = AddressSpace { root };
    assert!(space.translate(window, &w.machine.frames).is_none());
    assert!(w.machine.map_kernel_frame(window, thalyx::mm::Frame { number: 0xFEB0_0 }).is_ok());
    assert_eq!(space.translate(window + 8, &w.machine.frames).unwrap().0, 0xFEB0_0008);
}

#[test]
fn an_unauthorised_entry_changes_nothing() {
    let mut w = world();
    let memory = w.memory(1, right::MEMORY_READ);
    let request = body().w(right::MEMORY_READ).w(0).d(0).d(0);
    let plain = w.run(op::CAP_DERIVE, memory, request).unwrap();
    let pages = w.machine.available();
    let refusals = w.machine.domain(w.domain).refusals;
    let request = body().w(right::MEMORY_READ).w(0).d(0).d(0);
    assert_eq!(w.run(op::CAP_DERIVE, plain, request), Err(Status::InsufficientRights));
    assert_eq!(w.machine.domain(w.domain).refusals, refusals + 1);
    assert_eq!(w.machine.available(), pages);
    assert_eq!(w.run(op::MEMORY_QUERY, memory, body()), Ok(1));
}

#[test]
fn domains_are_built_before_they_run() {
    let mut w = world();
    let (handle, index) = new_domain(&mut w);
    assert_eq!(w.machine.domain(index).state, DomainState::Building);
    assert_eq!(domain_name(&w.machine, index), b"worker".to_vec());
    let shown = protection(&w.machine, index);
    assert_eq!(shown.entry_flags & 0x8000_0000_0000_0005, 5);
    assert!(!shown.guard_mapped && !shown.null_mapped);
    // A supervised domain needs a channel to report its faults on.
    assert_eq!(w.run(op::DOMAIN_ACTIVATE, handle, body()), Err(Status::StateConflict));
    let endpoint = w.endpoint(4);
    assert_eq!(w.run(op::DOMAIN_SET_FAULT_CHANNEL, handle, body().d(endpoint).d(0)), Ok(0));
    // A thread starts where its domain may go.
    assert_eq!(
        add_thread_in(&mut w.machine, index, 0x50_0000, 0x7FFF_FFFF_F000, 9),
        Err(CreateError::Mapping(MapError::BadAddress))
    );
    assert_eq!(
        add_thread_in(&mut w.machine, index, 0x40_0000, 0x40_0010, 9),
        Err(CreateError::Mapping(MapError::BadAddress))
    );
    assert!(w.machine.domain(index).threads[1].is_none());
    let thread = body().d(0x40_0000).d(0x7FFF_FFFF_F000).d(9).d(0);
    assert!(w.run(op::DOMAIN_ADD_THREAD, handle, thread).is_ok());
    let install = body().d(endpoint).w(5).w(right::ENDPOINT_SEND).d(0);
    assert_eq!(w.run(op::DOMAIN_INSTALL_CAP, handle, install), Ok(boot_handle(5)));
    let sender = body().w(right::ENDPOINT_SEND | right::TRANSFER).w(0).d(0).d(0);
    let sender = w.run(op::CAP_DERIVE, endpoint, sender).unwrap();
    let wider = body().d(sender).w(6).w(right::ENDPOINT_RECEIVE).d(0);
    assert_eq!(w.run(op::DOMAIN_INSTALL_CAP, handle, wider), Err(Status::InsufficientRights));
    assert!(w.run(op::DOMAIN_ACTIVATE, handle, body()).is_ok());
    assert_eq!(w.machine.domain(index).state, DomainState::Runnable);
    assert_eq!(w.run(op::DOMAIN_QUERY, handle, body()), Ok(2));
    assert_eq!(w.word(4), 2);
    assert_eq!(w.run(op::DOMAIN_ACTIVATE, handle, body()), Err(Status::StateConflict));
}

#[test]
fn a_fault_is_reported_and_ends_its_domain_alone() {
    let mut w = world();
    let (handle, index) = new_domain(&mut w);
    let endpoint = w.endpoint(2);
    w.run(op::DOMAIN_SET_FAULT_CHANNEL, handle, body().d(endpoint).d(0)).unwrap();
    w.run(op::DOMAIN_ACTIVATE, handle, body()).unwrap();
    // Ordinary traffic cannot take the cell of the report.
    assert!(w.run(op::ENDPOINT_SEND, endpoint, message(b"one", &[])).is_ok());
    assert_eq!(
        w.run(op::ENDPOINT_SEND, endpoint, message(b"two", &[])),
        Err(Status::QueueFull)
    );
    let thread = w.machine.domain(index).threads[0].unwrap() as usize;
    let record = FaultRecord {
        vector: 14,
        error_code: 4,
        cr2: 0x10,
        rip: 0x40_0000,
        rsp: 0x7000_0000,
        cs: 0x23,
    };
    assert!(terminate_on_fault(&mut w.machine, thread, &record, 0, 2_000));
    assert_eq!(w.machine.domain(index).state, DomainState::Faulted);
    assert_eq!(w.machine.domain(index).faults, 1);
    assert_eq!(w.machine.domain(index).exit_reason, Some(ExitReason::UserFault));
    assert_eq!(w.machine.domain(w.domain).state, DomainState::Runnable);
    // A second fault of a stopped thread is not counted.
    assert!(!terminate_on_fault(&mut w.machine, thread, &record, 0, 2_001));
    assert_eq!(w.machine.domain(index).faults, 1);
    assert_eq!(w.machine.user_faults, 1);
    // A stopped domain maps nothing and holds no capability.
    assert!((0..MAX_MAPS).all(|i| !w.machine.map(i).used || w.machine.map(i).domain as usize != index));
    assert!(!terminate_in(&mut w.machine, index, ExitReason::UserFault, 0, 0, 2_002));
    let ctx = w.steps(op::ENDPOINT_RECEIVE, endpoint, body(), 1);
    let mut found = false;
    while let Ok(Received::Message(_, got)) = receive(&mut w.machine, &ctx, 2_100) {
        if got.header.kind == thalyx::abi::message_kind::FAULT {
            found = true;
            assert_eq!(thalyx::bytes::read_u64(&got.payload, 24), Some(14));
        }
    }
    assert!(found);
}

#[test]
fn a_terminated_domain_is_reclaimed() {
    let mut w = world();
    let (handle, index) = new_domain(&mut w);
    let held = w.machine.charged(Owner::Domain(index as u16));
    assert!(held > 0);
    assert!(w.run(op::DOMAIN_TERMINATE, handle, body()).is_ok());
    assert_eq!(w.machine.domain(index).state, DomainState::Dead);
    assert_eq!(w.machine.charged(Owner::Domain(index as u16)), 0);
    assert_eq!(w.run(op::DOMAIN_TERMINATE, handle, body()), Err(Status::StateConflict));
    // What it held waits until every processor has forgotten it.
    let before = w.machine.available();
    w.machine.set_cpu(
        0,
        Cpu { online: true, flushed: u64::MAX, space: None, current: None, leaving: None },
    );
    let released = drain_quarantine(&mut w.machine);
    assert!(released >= held);
    assert_eq!(w.machine.available(), before + released);
    assert_eq!(drain_quarantine(&mut w.machine), 0);
}

#[test]
fn a_domain_leaves_at_its_own_request() {
    let mut w = world();
    terminate_voluntarily(&mut w.machine, w.thread, 7, 0, 3_000);
    let domain = w.machine.domain(w.domain);
    assert_eq!(domain.state, DomainState::Stopping);
    assert_eq!((domain.exit_reason, domain.exit_code), (Some(ExitReason::Voluntary), 7));
    reap_dead(&mut w.machine);
    assert_eq!(w.machine.domain(w.domain).state, DomainState::Dead);
}

#[test]
fn a_refused_domain_leaves_nothing() {
    let mut m = machine();
    establish_root(&mut m);
    let free = m.available();
    let refused = create_in(&mut m, b"bad", &[0u8; 100], 0, false, None);
    assert!(matches!(refused, Err(CreateError::Image(_))));
    assert_eq!(m.available(), free);
    assert_eq!(m.scope(0).metadata, 0);
    let made = create_in(&mut m, b"good", &program(), 0, false, None).unwrap();
    assert_eq!(m.domain(made.index).state, DomainState::Building);
    assert!(m.scope(0).memory_pages > 0);
}

#[test]
fn boot_memory_comes_back_without_the_stack() {
    let mut m = machine();
    let region = |base: u64, pages: u64, kind: u32| MemoryRegion { base, pages, kind, flags: 0 };
    let regions = vec![
        region(0, 1, region_kind::MODULES),
        region(0x1000, 1, region_kind::BOOT_RECLAIMABLE),
    ];
    let free = m.available();
    assert_eq!(reclaim_boot_memory(&mut m, &regions, 0x1000, 1), (1, 0));
    assert_eq!(m.available(), free + 1);
    assert_eq!(reclaim_boot_memory(&mut m, &regions, 0x8000, 1), (0, 1));
    assert_eq!(m.available(), free + 2);
}

fn function() -> Function {
    let window = |memory: bool, base: u64, length: u64| Bar { memory, base, length };
    let cap = |offset: u64| {
        Some(VirtioCap { bar: 4, offset, length: 0x1000, notify_off_multiplier: 4 })
    };
    Function {
        bdf: 0x18,
        vendor: 0x1AF4,
        device: 0x1042,
        class: 0x01_0000,
        bars: [
            window(false, 0, 0),
            window(true, 0xFEB0_0000, 0x1000),
            window(false, 0, 0),
            window(false, 0, 0),
            window(true, 0xFE00_0000, 0x4000),
            window(false, 0, 0),
        ],
        virtio: [None, cap(0), cap(0x1000), cap(0x2000), cap(0x3000), None],
        msix: Some(Msix {
            offset: 0x98,
            vectors: 2,
            table_bar: 1,
            table_offset: 0,
            pba_bar: 1,
            pba_offset: 0x800,
        }),
    }
}

#[test]
fn functions_are_validated() {
    let good = function();
    assert!(is_virtio_block(&good));
    assert!(validate(&good).refusal.is_none());
    assert_eq!(validate(&good).count, 4);
    let refused = |change: &dyn Fn(&mut Function)| {
        let mut bad = function();
        change(&mut bad);
        validate(&bad).refusal.unwrap()
    };
    let with = |bar: u8, offset: u64, length: u64| {
        move |f: &mut Function| {
            f.virtio[2] = Some(VirtioCap { bar, offset, length, notify_off_multiplier: 0 });
        }
    };
    assert_eq!(refused(&|f| f.virtio[3] = None), "missing_virtio_structure");
    assert_eq!(refused(&with(6, 0, 0x1000)), "structure_names_no_such_bar");
    assert_eq!(refused(&with(0, 0, 0x1000)), "structure_bar_is_not_memory");
    assert_eq!(refused(&with(4, u64::MAX, 0x1000)), "structure_range_overflows");
    assert_eq!(refused(&with(4, 0x4000, 0x1000)), "structure_outside_its_bar");
    assert_eq!(refused(&with(4, 0x800, 0x1000)), "structure_not_page_granular");
    assert_eq!(
        refused(&with(1, 0, 0x1000)),
        "structure_shares_pages_with_interrupt_table"
    );
    assert_eq!(transport_features(3), (true, true));
    assert_eq!(transport_features(2), (false, true));
    assert_eq!(table_window(&good, &good.msix.unwrap()), Some((0xFEB0_0000, 1, 0)));
}

fn device_world() -> (World, u64) {
    let mut machine = machine();
    establish_root(&mut machine);
    establish_control_log(&mut machine, 0);
    let functions = vec![function()];
    let transport = Transport {
        common_config: 0xAA00,
        msix_table: 0xBB00,
        version_1: true,
        access_platform: false,
    };
    let old = Transport { version_1: false, ..transport };
    assert_eq!(assign(&mut machine, &functions, &functions[0], &old, 0), None);
    assert_eq!(assign(&mut machine, &functions, &functions[0], &transport, 0), Some(0));
    let supervisor = establish_supervisor(&mut machine, 0, &program(), &vec![module("shell", 16)]).unwrap();
    assert_eq!(supervisor.devices, 1);
    let domain = supervisor.index;
    activate_in(&mut machine, domain).unwrap();
    let thread = machine.domain(domain).threads[0].unwrap() as usize;
    let w = World { machine, domain, thread, now: 1_000, answer: Vec::new() };
    (w, boot_handle(boot_slot::FIRST_DEVICE))
}

#[test]
fn a_driver_uses_its_device_until_the_session_ends() {
    let (mut w, device) = device_world();
    assert_eq!(w.run(op::DEVICE_QUERY, device, body()), Ok(1));
    let (driver, index) = new_domain(&mut w);
    let region =
        |session: u32, index: u32| body().w(session).w(index).d(driver).d(0x5000_0000);
    let running = body().w(1).w(1).d(boot_handle(SELF_DOMAIN)).d(0x5000_0000);
    assert_eq!(w.run(op::DEVICE_MAP_REGION, device, running), Err(Status::StateConflict));
    assert_eq!(w.run(op::DEVICE_MAP_REGION, device, region(2, 0)), Err(Status::StateConflict));
    assert!(w.run(op::DEVICE_MAP_REGION, device, region(1, 9)).is_err());
    assert_eq!(w.run(op::DEVICE_MAP_REGION, device, region(1, 1)), Ok(1));
    let entry = w.machine.translate(index, 0x5000_0000).unwrap();
    assert_eq!(entry & 0x000F_FFFF_FFFF_F000, 0xFE00_1000);
    let signal = w.signal();
    let vector = w
        .run(op::DEVICE_BIND_IRQ, device, body().w(1).w(0).d(signal).d(4))
        .unwrap();
    on_interrupt(&mut w.machine, vector as u8);
    assert_eq!(w.run(op::SIGNAL_QUERY, signal, body()), Ok(4));
    assert_eq!((delivered(&w.machine), unclaimed(&w.machine)), (1, 0));
    on_interrupt(&mut w.machine, 0x57);
    assert_eq!((delivered(&w.machine), unclaimed(&w.machine)), (1, 1));
    let memory = w.memory(2, right::MEMORY_READ | right::MEMORY_WRITE);
    let dma = |profile: u32| {
        body()
            .w(1)
            .w(0)
            .d(memory)
            .w(0)
            .w(2)
            .w(right::MEMORY_READ | right::MEMORY_WRITE)
            .w(profile)
    };
    assert_eq!(
        w.run(op::DEVICE_DMA_MAP, device, dma(1)),
        Err(Status::UnsupportedProfile)
    );
    let iova = w.run(op::DEVICE_DMA_MAP, device, dma(0)).unwrap();
    assert_eq!(w.long(8), 0x2000);
    let held = summarize(&w.machine);
    assert_eq!((held.assigned, held.grants, held.maps, held.bindings), (1, 1, 1, 1));
    assert_eq!(w.run(op::DEVICE_DMA_UNMAP, device, body().w(1).w(0).d(iova + 1)).is_err(), true);
    assert_eq!(w.run(op::DEVICE_DMA_UNMAP, device, body().w(1).w(0).d(iova)), Ok(2));
    let ctx = w.steps(op::DEVICE_SET_MASTER, device, body().w(1).w(1), 0);
    assert_eq!(check_master(&w.machine, &ctx, 1, true), Ok(0x18));
    assert_eq!(check_master(&w.machine, &ctx, 2, true), Err(Status::StateConflict));
    assert_eq!(check_master(&w.machine, &ctx, 1, false), Err(Status::NotSupported));
    assert_eq!(set_master(&mut w.machine, &ctx, true), 1);
    let ctx = w.steps(op::DEVICE_RESET, device, body(), 0);
    let stopping = begin_reset(&mut w.machine, &ctx, 1_000).unwrap();
    assert_eq!((stopping.common_config, stopping.bdf), (0xAA00, 0x18));
    assert!(finish_reset(&mut w.machine, stopping.device, false).is_err());
    let restarted = finish_reset(&mut w.machine, stopping.device, true).unwrap();
    assert_eq!(restarted.info.session, 2);
    assert_eq!(restarted.masked, vec![0]);
    assert_eq!(reset_answer(2, true), Ok(2));
    // Nothing of the old session is left, and nothing of it is accepted.
    assert!(w.machine.translate(index, 0x5000_0000).is_none());
    assert_eq!(w.run(op::DEVICE_MAP_REGION, device, region(1, 1)), Err(Status::StateConflict));
    on_interrupt(&mut w.machine, vector as u8);
    assert_eq!((delivered(&w.machine), unclaimed(&w.machine)), (1, 2));
    let held = summarize(&w.machine);
    assert_eq!((held.maps, held.bindings, held.stale_maps, held.stale_bindings), (0, 0, 0, 0));
}

#[test]
fn kernel_windows_are_bounded() {
    let mut m = machine();
    let mut windows = Windows { next: 0 };
    let first = map_kernel_window(&mut m, &mut windows, 0xFEB0_0000, 2).unwrap();
    let second = map_kernel_window(&mut m, &mut windows, 0xFE00_0000, 1).unwrap();
    assert_eq!(second, first + 0x2000);
    assert_eq!(windows.next, 3);
    assert_eq!(map_kernel_window(&mut m, &mut windows, 0, 62), None);
    assert_eq!(windows.next, 3);
    let space = AddressSpace { root: m.kernel_space.unwrap() };
    let at = |v: u64| space.translate(v, &m.frames).unwrap();
    assert_eq!(at(first + 0x1008).0, 0xFEB0_1008);
    assert_eq!(at(second).0, 0xFE00_0000);
    // Writable, not executable, not cached.
    assert_eq!(at(second).1 & 0x8000_0000_0000_0012, 0x8000_0000_0000_0012);
}

#[test]
fn configuration_space_is_one_uncached_page() {
    let mut m = machine();
    let window = thalyx::layout::ECAM_VADDR;
    assert_eq!(map_configuration(&mut m, 0xB000_1000), Err(MapError::BadAddress));
    assert_eq!(map_configuration(&mut m, 0xB000_0000), Ok(()));
    let space = AddressSpace { root: m.kernel_space.unwrap() };
    let (phys, entry) = space.translate(window + 0x12_3456, &m.frames).unwrap();
    assert_eq!(phys, 0xB012_3456);
    assert_eq!(entry & 0x92, 0x92);
    assert!(space.translate(window + 0x20_0000, &m.frames).is_none());
    assert!(map_configuration(&mut m, 0xC000_0000).is_err());
}

#[test]
fn a_kernel_stack_comes_and_goes_with_its_thread() {
    let mut w = world();
    let slot = |w: &World, t: usize| w.machine.thread(t).kstack_slot as usize;
    let mapped = |w: &World, s: usize, page: u64| {
        let space = AddressSpace { root: w.machine.kernel_space.unwrap() };
        let v = thalyx::layout::kstack_slot_base(s) + page * 0x1000;
        space.translate(v, &w.machine.frames)
    };
    let (handle, index) = new_domain(&mut w);
    let first = slot(&w, w.machine.domain(index).threads[0].unwrap() as usize);
    let t = add_thread_in(&mut w.machine, index, 0x40_0000, 0x7FFF_FFFF_F000, 9).unwrap();
    let second = slot(&w, t);
    assert_ne!(first, second);
    for s in [first, second] {
        assert!(mapped(&w, s, 0).is_none());
        for page in 1..5 {
            // Writable, not executable, not the user's.
            let (_, entry) = mapped(&w, s, page).unwrap();
            assert_eq!(entry & 0x8000_0000_0000_0006, 0x8000_0000_0000_0002);
        }
    }
    assert!(w.run(op::DOMAIN_TERMINATE, handle, body()).is_ok());
    assert_eq!(w.machine.domain(index).state, DomainState::Dead);
    assert!([first, second].iter().all(|s| (0..5).all(|page| mapped(&w, *s, page).is_none())));
    // The slots can be taken again.
    let (_, again) = new_domain(&mut w);
    let third = slot(&w, w.machine.domain(again).threads[0].unwrap() as usize);
    assert_eq!(third, first);
}

#[test]
fn a_refused_termination_still_reclaims() {
    let mut w = world();
    let (_, index) = new_domain(&mut w);
    assert!(terminate_in(&mut w.machine, index, ExitReason::UserFault, 7, 0, 2_000));
    let ended = w.machine.domain(index);
    assert_eq!(ended.state, DomainState::Faulted);
    assert_eq!((ended.exit_reason, ended.exit_code), (Some(ExitReason::UserFault), 7));
    assert_eq!(w.run(op::DOMAIN_TERMINATE, 0, body()), Err(Status::InvalidHandle));
    assert_eq!(w.machine.domain(index).state, DomainState::Dead);
    assert_eq!(w.machine.domain(index).exit_code, 7);
    let (_, index) = new_domain(&mut w);
    assert!(terminate_in(&mut w.machine, index, ExitReason::UserFault, 8, 0, 2_000));
    assert_eq!(w.run(op::SCOPE_DRAIN_STATUS, 0, body()), Err(Status::InvalidHandle));
    assert_eq!(w.machine.domain(index).state, DomainState::Dead);
}

#[test]
fn a_release_undoes_an_installation() {
    let mut w = world();
    let memory = w.memory(1, right::MEMORY_READ);
    let cap = thalyx::api::resolve(
        &w.machine,
        w.domain,
        memory,
        object_type::MEMORY,
        right::MEMORY_READ,
        1,
    )
    .unwrap();
    let scope = w.machine.domain(w.domain).owner_scope as usize;
    let counts = |w: &World| {
        (
            w.machine.memory(cap.object.index as usize).refs,
            w.machine.grant(cap.grant as usize).refs,
            w.machine.scope(scope).metadata,
        )
    };
    let before = counts(&w);
    let copy = cap_install(&mut w.machine, w.domain, cap.object, cap.grant, None).unwrap();
    assert_eq!(counts(&w), (before.0 + 1, before.1 + 1, before.2 + 1));
    assert!(cap_release(&mut w.machine, w.domain, copy));
    assert_eq!(counts(&w), before);
    assert!(!cap_release(&mut w.machine, w.domain, copy));
    assert_eq!(counts(&w), before);
}

#[test]
fn a_query_speaks_of_the_window_of_its_entry() {
    let mut w = world();
    let child = w.child(8).unwrap();
    let cap = thalyx::api::resolve(
        &w.machine,
        w.domain,
        child,
        object_type::SCOPE,
        right::INSPECT,
        1,
    )
    .unwrap();
    let index = cap.object.index as usize;
    let node = w.machine.scope(index);
    let spent = Scope { window_index: 3, cpu_window_ns: 500, cpu_total_ns: 900, ..node };
    w.machine.set_scope(index, spent);
    let mut ctx = w.steps(op::SIGNAL_WAIT, child, body().d(1), 1);
    ctx.cap = cap;
    let asked = |now: u64| {
        let info = query(&w.machine, &Ctx { now, ..ctx }, 7);
        (info.window_index, info.cpu_window_used_ns, info.cpu_total_ns)
    };
    assert_eq!(asked(3 * CPU_WINDOW_NS + 1), (3, 507, 907));
    assert_eq!(asked(4 * CPU_WINDOW_NS), (4, 7, 907));
}

#[test]
fn withdrawn_deadlines_are_observed_by_inspection() {
    let mut w = world();
    let signal = w.signal();
    let ctx = match w.entry(op::SIGNAL_WAIT, signal, body().d(1), 1) {
        Invoked::Stepwise(ctx) => ctx,
        other => panic!("{other:?}"),
    };
    // The capability of a waiting operation is resolved when it runs.
    assert_eq!(ctx.cap.rights, 0);
    let info = capops::inspect(
        &w.machine,
        &Ctx {
            cap: thalyx::api::resolve(
                &w.machine,
                w.domain,
                signal,
                object_type::SIGNAL,
                right::SIGNAL_WAIT,
                1,
            )
            .unwrap(),
            ..ctx
        },
    );
    assert_eq!(info.object_type, object_type::SIGNAL);
    assert_eq!(info.derive_depth, 0);
}

/// Leaves something behind in every free frame.
fn dirty(m: &mut Machine) {
    for i in 0..FRAMES {
        if m.frames.uses[i] == FrameUse::Free {
            m.frames.memory[i] = [0x5A5A; 512];
        }
    }
}

#[test]
fn a_new_domain_stands_on_fresh_frames() {
    let mut m = machine();
    establish_root(&mut m);
    let first = create_in(&mut m, b"first", &program(), 0, false, None).unwrap();
    dirty(&mut m);
    let before = m.frames.uses.clone();
    let second = create_in(&mut m, b"second", &program(), 0, false, None).unwrap();
    assert_eq!(second.loads.len(), 9);
    let owner = Owner::Domain(second.index as u16);
    let mut seen = Vec::new();
    for load in &second.loads {
        let n = load.frame.number as usize;
        assert_eq!(before[n], FrameUse::Free);
        assert_eq!(m.frames.uses[n], FrameUse::Held(owner));
        assert!(m.frames.memory[n].iter().all(|word| *word == 0));
        assert!(!seen.contains(&n));
        seen.push(n);
    }
    assert!(first.loads.iter().all(|load| !seen.contains(&(load.frame.number as usize))));
    // So are the pages of the kernel stack.
    let t = m.domain(second.index).threads[0].unwrap() as usize;
    let base = thalyx::layout::kstack_slot_base(m.thread(t).kstack_slot as usize);
    let space = AddressSpace { root: m.kernel_space.unwrap() };
    for page in 1..5 {
        let (phys, _) = space.translate(base + page * 0x1000, &m.frames).unwrap();
        let n = (phys / 0x1000) as usize;
        assert_eq!(before[n], FrameUse::Free);
        assert_eq!(m.frames.uses[n], FrameUse::Held(Owner::Kernel));
        assert!(!seen.contains(&n));
        seen.push(n);
    }
}

#[test]
fn a_memory_object_starts_empty() {
    let mut w = world();
    dirty(&mut w.machine);
    let before = w.machine.frames.uses.clone();
    w.memory(3, right::MEMORY_READ);
    let object = (0..MAX_MEMORY_OBJECTS)
        .map(|i| w.machine.memory(i))
        .find(|object| object.state == thalyx::memobj::State::Mutable)
        .unwrap();
    assert_eq!(object.pages, 3);
    for n in object.base.number..object.base.number + 3 {
        assert_eq!(before[n as usize], FrameUse::Free);
        assert!(w.machine.frames.memory[n as usize].iter().all(|word| *word == 0));
    }
}

#[test]
fn a_range_is_found_page_by_page() {
    let mut w = world();
    let rw = right::MEMORY_READ | right::MEMORY_WRITE;
    let memory = w.memory(2, rw | right::MEMORY_MAP);
    let request = map_body(memory, 0x1000_0000, 2, rw);
    assert_eq!(w.run(op::DOMAIN_MAP, boot_handle(SELF_DOMAIN), request), Ok(2));
    let base = w.machine.translate(w.domain, 0x1000_0000).unwrap() & 0x000F_FFFF_FFFF_F000;
    let find = |at: u64, len: usize, write: bool| {
        user_pieces(&w.machine, w.domain, at, len, write)
    };
    assert_eq!(
        find(0x1000_0FF0, 0x20, true),
        Some(vec![(base + 0xFF0, 0x10), (base + 0x1000, 0x10)])
    );
    assert_eq!(find(0x1000_0004, 8, false), Some(vec![(base + 4, 8)]));
    assert_eq!(find(0x1000_1FF0, 0x11, true), None);
    // The program may be read, not written.
    assert!(find(0x40_0000, 16, false).is_some());
    assert_eq!(find(0x40_0000, 16, true), None);
    assert_eq!(find(0x9000_0000, 0, true), Some(vec![]));
    assert_eq!(find(0x7FFF_FFFF_FFF8, 16, false), None);
    assert_eq!(find(u64::MAX, 16, false), None);
}

#[test]
fn a_batch_is_written_in_order() {
    let mut w = world();
    let log = boot_handle(boot_slot::CONTROL_LOG);
    let note = |a: u64| body().w(7).w(0).d(0).d(a).d(2);
    w.run(op::LOG_APPEND, log, note(5)).unwrap();
    w.run(op::LOG_APPEND, log, note(6)).unwrap();
    let ctx = w.steps(op::LOG_READ, log, body(), 1);
    let Ok(Read::Batch(batch)) = read_log(&mut w.machine, &ctx, 1_000, true) else {
        panic!("no batch");
    };
    let count = batch.records.len();
    assert!(count >= 2);
    let mut out = vec![9u8];
    push_batch(&mut out, &batch);
    assert_eq!(out.len(), 1 + 16 + 96 * count);
    assert_eq!(thalyx::bytes::read_u32(&out, 1), Some(count as u32));
    assert_eq!(thalyx::bytes::read_u32(&out, 5), Some(batch.lost));
    assert_eq!(thalyx::bytes::read_u64(&out, 9), Some(batch.next_sequence));
    for (k, record) in batch.records.iter().enumerate() {
        assert_eq!(thalyx::bytes::read_u64(&out, 17 + 96 * k + 8), Some(record.sequence));
        assert_eq!(thalyx::bytes::read_u64(&out, 17 + 96 * k + 80), Some(record.a));
    }
}

#[test]
fn a_window_is_checked_before_its_space_is_asked_for() {
    let (mut w, device) = device_world();
    let (driver, index) = new_domain(&mut w);
    let at = |vaddr: u64| body().w(1).w(1).d(driver).d(vaddr);
    let space = w.machine.domains[index].space;
    w.machine.domains[index].space = None;
    w.machine.devices[0].regions[1].length = 0x2000;
    assert_eq!(
        w.run(op::DEVICE_MAP_REGION, device, at(0x7FFF_FFFF_F000)),
        Err(Status::InvalidAddress)
    );
    assert_eq!(w.run(op::DEVICE_MAP_REGION, device, at(0x5000_0000)), Err(Status::StateConflict));
    w.machine.devices[0].regions[1].length = 0;
    assert_eq!(w.run(op::DEVICE_MAP_REGION, device, at(0x5000_0000)), Ok(0));
    w.machine.domains[index].space = space;
    assert!(w.machine.translate(index, 0x5000_0000).is_none());
}

#[test]
fn an_image_over_its_stack_is_refused_as_such() {
    let mut w = world();
    let scope = boot_handle(boot_slot::SELF_SCOPE);
    let image = boot_handle(boot_slot::FIRST_MODULE);
    let ctx = w.steps(op::SCOPE_CREATE_DOMAIN, scope, body().d(image).b(b"worker", 16), 0);
    let request =
        thalyx::abi::request::DomainCreateRequest { image_handle: image, name: [0u8; 16] };
    let mut over = program();
    put(&mut over, 24, 0x7FFF_FFFF_E000, 8);
    put(&mut over, 80, 0x7FFF_FFFF_E000, 8);
    let code = |m: &mut Machine, bytes: &Vec<u8>| {
        create_domain(m, &ctx, &request, bytes).err().unwrap()
    };
    assert_eq!(code(&mut w.machine, &over), Status::InvalidArgument);
    // Also where a handle for it would not fit.
    w.machine.next_id = u64::MAX - 2;
    assert_eq!(code(&mut w.machine, &over), Status::InvalidArgument);
    assert_eq!(code(&mut w.machine, &program()), Status::LimitExhausted);
}

#[test]
fn every_page_of_a_domain_is_its_own() {
    let (mut w, device) = device_world();
    let (driver, index) = new_domain(&mut w);
    let memory = w.memory(2, right::MEMORY_READ | right::MEMORY_MAP);
    let request = map_body(memory, 0x1000_0000, 2, right::MEMORY_READ);
    assert_eq!(w.run(op::DOMAIN_MAP, driver, request), Ok(2));
    let region = body().w(1).w(1).d(driver).d(0x5000_0000);
    assert_eq!(w.run(op::DEVICE_MAP_REGION, device, region), Ok(1));
    let frame = |w: &World, v: u64| {
        w.machine.translate(index, v).map(|e| (e & 0x000F_FFFF_FFFF_F000) / 0x1000)
    };
    let record = (0..MAX_MAPS).map(|k| w.machine.map(k)).find(|r| r.used).unwrap();
    assert_eq!((record.domain as usize, record.pages), (index, 2));
    let object = w.machine.memory(record.memory as usize);
    assert_eq!(object.map_count, 1);
    assert_eq!(frame(&w, 0x1000_0000), Some(object.base.number));
    assert_eq!(frame(&w, 0x1000_1000), Some(object.base.number + 1));
    assert_eq!(frame(&w, 0x5000_0000), Some(0xFE00_1000 / 0x1000));
    let own = FrameUse::Held(Owner::Domain(index as u16));
    for v in [0x40_0000, 0x7FFF_FFFF_E000] {
        assert_eq!(w.machine.frames.uses[frame(&w, v).unwrap() as usize], own);
    }
    // A mapping that cannot be made leaves the object as it was.
    let taken = map_body(memory, 0x0FFF_F000, 2, right::MEMORY_READ);
    assert_eq!(w.run(op::DOMAIN_MAP, driver, taken), Err(Status::StateConflict));
    assert_eq!(w.machine.memory(record.memory as usize).map_count, 1);
    assert_eq!((0..MAX_MAPS).filter(|k| w.machine.map(*k).used).count(), 1);
    assert_eq!(frame(&w, 0x0FFF_F000), None);
}

#[test]
fn an_interrupt_goes_to_the_processor_it_was_bound_to() {
    let (mut w, device) = device_world();
    let signal = w.signal();
    let ctx = w.steps(op::DEVICE_RESET, device, body(), 0);
    let request = thalyx::abi::request::DeviceIrqRequest {
        session: 1,
        vector_index: 0,
        signal_handle: signal,
        bits: 4,
    };
    let (vector, table) = bind_irq(&mut w.machine, &ctx, &request, 0x12_3456).unwrap();
    assert_eq!(table.address, 0xFEE0_0000 | 0x1_2345_6000);
    assert_eq!(u64::from(table.data), vector);
    assert_eq!(table.table, 0xBB00);
}
