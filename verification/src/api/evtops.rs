//! Signals and timers.
//!
//! A signal is a coalescing bit set, not a queue: waking a consumer means "go
//! and look", and the sequence number is what lets it tell a repeat from a
//! stale read. A consumer that looks, finds nothing and goes to sleep does both
//! in one step, so a raise cannot fall between.
//!
//! A timer raises a signal. It records the generation of that signal when it is
//! bound, so an expiry that arrives after the signal was destroyed and its slot
//! reused raises nothing.

use vstd::prelude::*;

use crate::abi::request::{SignalInfo, TimerCreateRequest, TimerInfo};
use crate::abi::status::Status;
use crate::abi::{flag, object_type, right};
use crate::api::calls::caller_ok;
use crate::api::ipcops::one_more64;
use crate::api::{claim, ctx_ok, mint, resolve, Ctx};
use crate::ctrl::one_more;
use crate::events::{Signal, Timer};
use crate::limits::{MAX_SIGNALS, MAX_THREADS, MAX_TIMERS};
use crate::obj::{ObjKind, ObjRef, NO_GRANT};
use crate::scope;
use crate::state::{Machine, MachineModel, Thread, ThreadState, Wait, WakeHint};
use crate::thread::{prepare_wait, wake, woken};

verus! {

/// The first free signal from `from` on, or [`MAX_SIGNALS`].
pub open spec fn first_signal(signals: Seq<Signal>, from: int) -> int
    decreases MAX_SIGNALS - from,
{
    if from >= MAX_SIGNALS {
        MAX_SIGNALS as int
    } else if !signals[from].used {
        from
    } else {
        first_signal(signals, from + 1)
    }
}

/// The first free timer from `from` on, or [`MAX_TIMERS`].
pub open spec fn first_timer(timers: Seq<Timer>, from: int) -> int
    decreases MAX_TIMERS - from,
{
    if from >= MAX_TIMERS {
        MAX_TIMERS as int
    } else if !timers[from].used {
        from
    } else {
        first_timer(timers, from + 1)
    }
}

/// A thread that waits for some of `bits` of a signal.
pub open spec fn awaits(thread: Thread, index: int, generation: u32, bits: u64) -> bool {
    thread.state == ThreadState::Blocked && match thread.wait {
        Wait::Signal(s, g, mask) => s == index && g == generation && mask & bits != 0,
        _ => false,
    }
}

/// A thread that waits for a signal.
pub open spec fn awaits_any(thread: Thread, index: int, generation: u32) -> bool {
    thread.state == ThreadState::Blocked && match thread.wait {
        Wait::Signal(s, g, mask) => s == index && g == generation,
        _ => false,
    }
}

/// Threads among the first `n` that wait for a signal.
pub open spec fn waiters(threads: Seq<Thread>, index: int, generation: u32, n: int) -> nat
    decreases n,
{
    if n <= 0 {
        0
    } else if awaits_any(threads[n - 1], index, generation) {
        waiters(threads, index, generation, n - 1) + 1
    } else {
        waiters(threads, index, generation, n - 1)
    }
}

impl MachineModel {
    /// Why a signal is not created, or nothing when it is.
    pub open spec fn signal_fault(self, ctx: Ctx) -> Option<Status> {
        let sponsor = ctx.cap.object.index;
        if !self.is_open(sponsor) {
            Some(Status::ScopeClosed)
        } else if first_signal(self.signals, 0) == MAX_SIGNALS || !self.can_create(
            sponsor,
            ctx.domain as int,
        ) {
            Some(Status::LimitExhausted)
        } else {
            None
        }
    }

    /// The machine once a signal has been created.
    pub open spec fn signal_created(self, ctx: Ctx) -> MachineModel {
        let sponsor = ctx.cap.object.index;
        let i = first_signal(self.signals, 0);
        let generation = one_more(self.signals[i].generation);
        self.claimed(sponsor).with_signal(
            i,
            Signal {
                used: true,
                generation,
                id: self.next_id,
                owner_scope: sponsor,
                ..Signal::empty_spec()
            },
        ).owned(
            ctx.domain as int,
            ObjRef { kind: ObjKind::Signal, index: i as u16, generation },
            ObjKind::Signal.mask_spec(),
        )
    }

    /// The signal a timer is to raise, or why it cannot be bound to it.
    pub open spec fn timer_signal(self, ctx: Ctx, request: TimerCreateRequest) -> Result<
        ObjRef,
        Status,
    > {
        match self.resolved(
            ctx.domain as int,
            request.signal_handle,
            object_type::SIGNAL,
            right::SIGNAL_RAISE,
            ctx.now,
        ) {
            Ok(cap) => Ok(cap.object),
            Err(code) => Err(code),
        }
    }

    /// Why a timer is not created, or nothing when it is.
    pub open spec fn timer_fault(self, ctx: Ctx, request: TimerCreateRequest) -> Option<Status> {
        let sponsor = ctx.cap.object.index;
        match self.timer_signal(ctx, request) {
            Err(code) => Some(code),
            Ok(_) => if request.bits == 0 {
                Some(Status::InvalidArgument)
            } else if !self.is_open(sponsor) {
                Some(Status::ScopeClosed)
            } else if first_timer(self.timers, 0) == MAX_TIMERS || !self.can_create(
                sponsor,
                ctx.domain as int,
            ) {
                Some(Status::LimitExhausted)
            } else {
                None
            },
        }
    }

    /// The machine once a timer has been created.
    pub open spec fn timer_created(self, ctx: Ctx, request: TimerCreateRequest) -> MachineModel {
        let sponsor = ctx.cap.object.index;
        let i = first_timer(self.timers, 0);
        let generation = one_more(self.timers[i].generation);
        let signal = self.timer_signal(ctx, request)->Ok_0;
        self.claimed(sponsor).with_timer(
            i,
            Timer {
                used: true,
                generation,
                id: self.next_id,
                owner_scope: sponsor,
                signal: signal.index,
                signal_generation: signal.generation,
                bits: request.bits,
                ..Timer::empty_spec()
            },
        ).owned(
            ctx.domain as int,
            ObjRef { kind: ObjKind::Timer, index: i as u16, generation },
            ObjKind::Timer.mask_spec(),
        )
    }

    /// The machine once bits have been raised on a signal of the given
    /// generation; unchanged when there is none.
    pub open spec fn raised(self, i: int, generation: u32, bits: u64) -> MachineModel {
        let signal = self.signals[i];
        if !signal.used || signal.generation != generation {
            self
        } else {
            MachineModel {
                threads: Seq::new(
                    self.threads.len(),
                    |t: int|
                        if awaits(self.threads[t], i, generation, bits) {
                            woken(self.threads[t], Status::Success, WakeHint::Any)
                        } else {
                            self.threads[t]
                        },
                ),
                ..self.with_signal(
                    i,
                    Signal {
                        bits: signal.bits | bits,
                        sequence: next_sequence(signal.sequence),
                        ..signal
                    },
                )
            }
        }
    }

    /// State of a signal, with the bits to report.
    pub open spec fn signal_info(self, i: int, bits: u64) -> SignalInfo {
        SignalInfo {
            bits,
            sequence: self.signals[i].sequence,
            object_id: self.signals[i].id,
            waiters: waiters(
                self.threads,
                i,
                self.signals[i].generation,
                MAX_THREADS as int,
            ) as u32,
        }
    }

    /// What one look at a signal comes to.
    pub open spec fn looked(self, ctx: Ctx, bits: u64, now: u64) -> (MachineModel, Result<
        Looked,
        Status,
    >) {
        match self.resolved(
            ctx.domain as int,
            ctx.handle,
            object_type::SIGNAL,
            right::SIGNAL_WAIT,
            now,
        ) {
            Err(code) => (self, Err(code)),
            Ok(cap) => {
                let i = cap.object.index as int;
                let signal = self.signals[i];
                let observed = signal.bits & bits;
                if observed != 0 {
                    let after = self.with_signal(
                        i,
                        Signal { bits: signal.bits & !observed, ..signal },
                    );
                    (after, Ok(Looked::Bits(after.signal_info(i, observed))))
                } else if ctx.flags & flag::NONBLOCKING != 0 {
                    (self, Err(Status::WouldBlock))
                } else {
                    (
                        self.wait_begun(
                            ctx.thread as int,
                            Wait::Signal(i as u16, cap.object.generation, bits),
                            ctx.deadline,
                        ),
                        Ok(Looked::Asleep),
                    )
                }
            },
        }
    }

    /// A timer that is due.
    pub open spec fn is_due(self, i: int, now: u64) -> bool {
        let timer = self.timers[i];
        timer.used && timer.armed && timer.deadline_ns <= now
    }

    /// The machine once a due timer has fired.
    pub open spec fn fired(self, i: int) -> MachineModel {
        let timer = self.timers[i];
        self.with_timer(
            i,
            Timer { armed: false, fired: one_more64(timer.fired), ..timer },
        ).raised(timer.signal as int, timer.signal_generation, timer.bits)
    }

    /// The machine, and how many fired, once the first `n` timers have been
    /// considered.
    pub open spec fn expired(self, now: u64, n: nat) -> (MachineModel, u32)
        decreases n,
    {
        if n == 0 {
            (self, 0)
        } else {
            let (before, count) = self.expired(now, (n - 1) as nat);
            if before.is_due(n - 1, now) {
                (before.fired(n - 1), one_more(count))
            } else {
                (before, count)
            }
        }
    }
}

/// The sequence after `n`, which wraps.
pub open spec fn next_sequence(n: u64) -> u64 {
    if n == u64::MAX {
        0
    } else {
        (n + 1) as u64
    }
}

/// Creates a coalescing signal charged to the addressed scope.
pub fn create_signal(machine: &mut Machine, ctx: &Ctx) -> (result: Result<u64, Status>)
    requires
        old(machine).wf(),
        ctx_ok(*ctx, ObjKind::Scope),
    ensures
        final(machine).wf(),
        final(machine).same_tables(*old(machine)),
        match old(machine)@.signal_fault(*ctx) {
            Some(code) => {
                &&& result == Err::<u64, Status>(code)
                &&& final(machine)@ == old(machine)@
            },
            None => {
                &&& final(machine)@ == old(machine)@.signal_created(*ctx)
                &&& result == Ok::<u64, Status>(old(machine)@.minted_handle(ctx.domain as int))
            },
        },
{
    let sponsor: u16 = ctx.cap.object.index;
    if machine.scope(sponsor as usize).state != scope::State::Open {
        return Err(Status::ScopeClosed);
    }
    let mut i: usize = 0;
    while i < MAX_SIGNALS && machine.signal(i).used
        invariant
            machine.wf(),
            i <= MAX_SIGNALS,
            first_signal(machine@.signals, 0) == first_signal(machine@.signals, i as int),
        decreases MAX_SIGNALS - i,
    {
        i += 1;
    }
    if i == MAX_SIGNALS {
        return Err(Status::LimitExhausted);
    }
    let id: u64 = match claim(machine, ctx.domain, sponsor) {
        None => {
            return Err(Status::LimitExhausted);
        },
        Some(id) => id,
    };
    let generation: u32 = machine.signal(i).generation.saturating_add(1);
    machine.set_signal(
        i,
        Signal { used: true, generation, id, owner_scope: sponsor, ..Signal::empty() },
    );
    let object = ObjRef { kind: ObjKind::Signal, index: i as u16, generation };
    match mint(
        machine,
        ctx.domain,
        NO_GRANT,
        object,
        ObjKind::Signal.rights_mask(),
        0,
        None,
        0,
    ) {
        Some(handle) => Ok(handle),
        None => Err(Status::LimitExhausted),
    }
}

/// Creates a timer bound to a signal and the bits it raises.
pub fn create_timer(machine: &mut Machine, ctx: &Ctx, request: &TimerCreateRequest) -> (result:
    Result<u64, Status>)
    requires
        old(machine).wf(),
        ctx_ok(*ctx, ObjKind::Scope),
    ensures
        final(machine).wf(),
        final(machine).same_tables(*old(machine)),
        match old(machine)@.timer_fault(*ctx, *request) {
            Some(code) => {
                &&& result == Err::<u64, Status>(code)
                &&& final(machine)@ == old(machine)@
            },
            None => {
                &&& final(machine)@ == old(machine)@.timer_created(*ctx, *request)
                &&& result == Ok::<u64, Status>(old(machine)@.minted_handle(ctx.domain as int))
            },
        },
{
    let signal = match resolve(
        machine,
        ctx.domain,
        request.signal_handle,
        object_type::SIGNAL,
        right::SIGNAL_RAISE,
        ctx.now,
    ) {
        Err(code) => {
            return Err(code);
        },
        Ok(cap) => cap.object,
    };
    assert(signal.kind == ObjKind::Signal);
    if request.bits == 0 {
        return Err(Status::InvalidArgument);
    }
    let sponsor: u16 = ctx.cap.object.index;
    if machine.scope(sponsor as usize).state != scope::State::Open {
        return Err(Status::ScopeClosed);
    }
    let mut i: usize = 0;
    while i < MAX_TIMERS && machine.timer(i).used
        invariant
            machine.wf(),
            i <= MAX_TIMERS,
            first_timer(machine@.timers, 0) == first_timer(machine@.timers, i as int),
        decreases MAX_TIMERS - i,
    {
        i += 1;
    }
    if i == MAX_TIMERS {
        return Err(Status::LimitExhausted);
    }
    let id: u64 = match claim(machine, ctx.domain, sponsor) {
        None => {
            return Err(Status::LimitExhausted);
        },
        Some(id) => id,
    };
    let generation: u32 = machine.timer(i).generation.saturating_add(1);
    machine.set_timer(
        i,
        Timer {
            used: true,
            generation,
            id,
            owner_scope: sponsor,
            signal: signal.index,
            signal_generation: signal.generation,
            bits: request.bits,
            ..Timer::empty()
        },
    );
    let object = ObjRef { kind: ObjKind::Timer, index: i as u16, generation };
    match mint(
        machine,
        ctx.domain,
        NO_GRANT,
        object,
        ObjKind::Timer.rights_mask(),
        0,
        None,
        0,
    ) {
        Some(handle) => Ok(handle),
        None => Err(Status::LimitExhausted),
    }
}

/// Raises bits and wakes whoever is waiting for any of them.
pub fn raise(machine: &mut Machine, ctx: &Ctx, bits: u64) -> (result: Result<u64, Status>)
    requires
        old(machine).wf(),
        ctx_ok(*ctx, ObjKind::Signal),
    ensures
        final(machine).wf(),
        final(machine).same_tables(*old(machine)),
        ({
            let m = old(machine)@;
            let i = ctx.cap.object.index as int;
            if bits == 0 {
                &&& result == Err::<u64, Status>(Status::InvalidArgument)
                &&& final(machine)@ == m
            } else {
                &&& final(machine)@ == m.raised(i, m.signals[i].generation, bits)
                &&& result == Ok::<u64, Status>(final(machine)@.signals[i].sequence)
            }
        }),
{
    if bits == 0 {
        return Err(Status::InvalidArgument);
    }
    let i: usize = ctx.cap.object.index as usize;
    let generation: u32 = machine.signal(i).generation;
    raise_bits(machine, i, generation, bits);
    Ok(machine.signal(i).sequence)
}

/// Raises bits on a signal, checking the generation first.
pub fn raise_bits(machine: &mut Machine, index: usize, generation: u32, bits: u64)
    requires
        old(machine).wf(),
        index < MAX_SIGNALS,
    ensures
        final(machine).wf(),
        final(machine).same_tables(*old(machine)),
        final(machine)@ == old(machine)@.raised(index as int, generation, bits),
{
    let signal = machine.signal(index);
    if !signal.used || signal.generation != generation {
        return;
    }
    let ghost first = machine@;
    let sequence: u64 = if signal.sequence == u64::MAX {
        0
    } else {
        signal.sequence + 1
    };
    machine.set_signal(index, Signal { bits: signal.bits | bits, sequence, ..signal });
    let ghost before = machine@;
    proof {
        machine.wf_sized();
    }
    for t in 0..MAX_THREADS
        invariant
            machine.wf(),
            machine.same_tables(*old(machine)),
            before.threads.len() == MAX_THREADS,
            machine@ == (MachineModel { threads: machine@.threads, ..before }),
            machine@.threads.len() == before.threads.len(),
            forall|k: int|
                0 <= k < MAX_THREADS ==> #[trigger] machine@.threads[k] == if k < t && awaits(
                    before.threads[k],
                    index as int,
                    generation,
                    bits,
                ) {
                    woken(before.threads[k], Status::Success, WakeHint::Any)
                } else {
                    before.threads[k]
                },
    {
        let thread = machine.thread(t);
        let waits = thread.state == ThreadState::Blocked && match thread.wait {
            Wait::Signal(s, g, mask) => s as usize == index && g == generation && mask & bits
                != 0,
            _ => false,
        };
        if waits {
            wake(machine, t, Status::Success, WakeHint::Any);
        }
    }
    assert(machine@ =~= first.raised(index as int, generation, bits));
}

/// Counts the threads that wait for a signal.
fn count_waiters(machine: &Machine, index: usize, generation: u32) -> (count: u32)
    requires
        machine.wf(),
    ensures
        count == waiters(machine@.threads, index as int, generation, MAX_THREADS as int),
{
    let mut count: u32 = 0;
    for t in 0..MAX_THREADS
        invariant
            machine.wf(),
            count <= t,
            count == waiters(machine@.threads, index as int, generation, t as int),
    {
        let thread = machine.thread(t);
        let waits = thread.state == ThreadState::Blocked && match thread.wait {
            Wait::Signal(s, g, _) => s as usize == index && g == generation,
            _ => false,
        };
        if waits {
            count += 1;
        }
    }
    count
}

/// What one look at a signal came to.
#[derive(Clone, Copy, Debug, PartialEq, Eq, Structural)]
pub enum Looked {
    /// Bits that were raised, and are now consumed.
    Bits(SignalInfo),
    /// The thread sleeps until some are.
    Asleep,
}

/// Consumes the raised bits of a mask, or puts the thread to sleep until some
/// are raised.
///
/// A request for no bits at all is refused by [`wait`] before it looks.
fn look(machine: &mut Machine, ctx: &Ctx, bits: u64, now: u64) -> (result: Result<Looked, Status>)
    requires
        old(machine).wf(),
        caller_ok(*ctx),
    ensures
        final(machine).wf(),
        final(machine).same_tables(*old(machine)),
        (final(machine)@, result) == old(machine)@.looked(*ctx, bits, now),
{
    let cap = match resolve(
        machine,
        ctx.domain,
        ctx.handle,
        object_type::SIGNAL,
        right::SIGNAL_WAIT,
        now,
    ) {
        Err(code) => {
            return Err(code);
        },
        Ok(cap) => cap,
    };
    assert(cap.object.kind == ObjKind::Signal);
    let i: usize = cap.object.index as usize;
    let signal = machine.signal(i);
    let observed: u64 = signal.bits & bits;
    if observed != 0 {
        proof {
            machine.wf_sized();
        }
        machine.set_signal(i, Signal { bits: signal.bits & !observed, ..signal });
        let count: u32 = count_waiters(machine, i, signal.generation);
        assert(machine@.signal_info(i as int, observed) == SignalInfo {
            bits: observed,
            sequence: signal.sequence,
            object_id: signal.id,
            waiters: count,
        });
        return Ok(
            Looked::Bits(
                SignalInfo {
                    bits: observed,
                    sequence: signal.sequence,
                    object_id: signal.id,
                    waiters: count,
                },
            ),
        );
    }
    if ctx.flags & flag::NONBLOCKING != 0 {
        return Err(Status::WouldBlock);
    }
    prepare_wait(
        machine,
        ctx.thread,
        Wait::Signal(i as u16, cap.object.generation, bits),
        ctx.deadline,
    );
    Ok(Looked::Asleep)
}

/// Waits for any of a mask of bits, consuming what it observed: one look, after
/// which the thread has its bits or sleeps and looks again when it is woken.
pub fn wait(machine: &mut Machine, ctx: &Ctx, bits: u64, now: u64) -> (result: Result<
    Looked,
    Status,
>)
    requires
        old(machine).wf(),
        caller_ok(*ctx),
    ensures
        final(machine).wf(),
        final(machine).same_tables(*old(machine)),
        if bits == 0 {
            &&& result == Err::<Looked, Status>(Status::InvalidArgument)
            &&& final(machine)@ == old(machine)@
        } else {
            (final(machine)@, result) == old(machine)@.looked(*ctx, bits, now)
        },
{
    if bits == 0 {
        return Err(Status::InvalidArgument);
    }
    look(machine, ctx, bits, now)
}

/// Reads bits and sequence without waiting.
pub fn query_signal(machine: &Machine, ctx: &Ctx) -> (info: SignalInfo)
    requires
        machine.wf(),
        ctx_ok(*ctx, ObjKind::Signal),
    ensures
        info == machine@.signal_info(
            ctx.cap.object.index as int,
            machine@.signals[ctx.cap.object.index as int].bits,
        ),
{
    let i: usize = ctx.cap.object.index as usize;
    let signal = machine.signal(i);
    SignalInfo {
        bits: signal.bits,
        sequence: signal.sequence,
        object_id: signal.id,
        waiters: count_waiters(machine, i, signal.generation),
    }
}

/// Arms a monotonic expiry.
pub fn arm(machine: &mut Machine, ctx: &Ctx, deadline_ns: u64) -> (result: Result<u64, Status>)
    requires
        old(machine).wf(),
        ctx_ok(*ctx, ObjKind::Timer),
    ensures
        final(machine).wf(),
        final(machine).same_tables(*old(machine)),
        ({
            let i = ctx.cap.object.index as int;
            if deadline_ns == 0 {
                &&& result == Err::<u64, Status>(Status::InvalidArgument)
                &&& final(machine)@ == old(machine)@
            } else {
                &&& result == Ok::<u64, Status>(deadline_ns)
                &&& final(machine)@ == old(machine)@.with_timer(
                    i,
                    Timer { deadline_ns, armed: true, ..old(machine)@.timers[i] },
                )
            }
        }),
{
    if deadline_ns == 0 {
        return Err(Status::InvalidArgument);
    }
    let i: usize = ctx.cap.object.index as usize;
    let timer = machine.timer(i);
    machine.set_timer(i, Timer { deadline_ns, armed: true, ..timer });
    Ok(deadline_ns)
}

/// Cancels an armed expiry.
pub fn cancel(machine: &mut Machine, ctx: &Ctx) -> (result: Result<u64, Status>)
    requires
        old(machine).wf(),
        ctx_ok(*ctx, ObjKind::Timer),
    ensures
        final(machine).wf(),
        final(machine).same_tables(*old(machine)),
        result == Ok::<u64, Status>(0),
        final(machine)@ == old(machine)@.with_timer(
            ctx.cap.object.index as int,
            Timer {
                armed: false,
                deadline_ns: 0,
                ..old(machine)@.timers[ctx.cap.object.index as int]
            },
        ),
{
    let i: usize = ctx.cap.object.index as usize;
    let timer = machine.timer(i);
    machine.set_timer(i, Timer { armed: false, deadline_ns: 0, ..timer });
    Ok(0)
}

/// Reports the armed deadline and fire count.
pub fn query_timer(machine: &Machine, ctx: &Ctx) -> (info: TimerInfo)
    requires
        machine.wf(),
        ctx_ok(*ctx, ObjKind::Timer),
    ensures
        ({
            let timer = machine@.timers[ctx.cap.object.index as int];
            info == TimerInfo {
                armed: if timer.armed {
                    1
                } else {
                    0
                },
                deadline_ns: timer.deadline_ns,
                fired: timer.fired,
                object_id: timer.id,
            }
        }),
{
    let timer = machine.timer(ctx.cap.object.index as usize);
    TimerInfo {
        armed: if timer.armed {
            1
        } else {
            0
        },
        deadline_ns: timer.deadline_ns,
        fired: timer.fired,
        object_id: timer.id,
    }
}

/// Fires every armed timer whose deadline has passed; returns how many.
pub fn expire(machine: &mut Machine, now: u64) -> (fired: u32)
    requires
        old(machine).wf(),
    ensures
        final(machine).wf(),
        final(machine).same_tables(*old(machine)),
        (final(machine)@, fired) == old(machine)@.expired(now, MAX_TIMERS as nat),
{
    let mut fired: u32 = 0;
    for i in 0..MAX_TIMERS
        invariant
            machine.wf(),
            machine.same_tables(*old(machine)),
            (machine@, fired) == old(machine)@.expired(now, i as nat),
    {
        let timer = machine.timer(i);
        if timer.used && timer.armed && timer.deadline_ns <= now {
            machine.set_timer(
                i,
                Timer { armed: false, fired: timer.fired.saturating_add(1), ..timer },
            );
            raise_bits(machine, timer.signal as usize, timer.signal_generation, timer.bits);
            fired = fired.saturating_add(1);
        }
    }
    fired
}

/// True when a timer is armed, so the idle path knows something can still wake.
pub fn any_armed(machine: &Machine) -> (yes: bool)
    requires
        machine.wf(),
    ensures
        yes == exists|i: int|
            0 <= i < MAX_TIMERS && (#[trigger] machine@.timers[i]).used
                && machine@.timers[i].armed,
{
    for i in 0..MAX_TIMERS
        invariant
            machine.wf(),
            forall|k: int|
                0 <= k < i ==> !((#[trigger] machine@.timers[k]).used
                    && machine@.timers[k].armed),
    {
        let timer = machine.timer(i);
        if timer.used && timer.armed {
            assert(machine@.timers[i as int].used && machine@.timers[i as int].armed);
            return true;
        }
    }
    false
}

/// A raise is not lost on a thread that went to sleep before it: whoever waits
/// for one of the raised bits is awake afterwards, and finds them raised.
pub proof fn raise_wakes_whoever_waits(
    m: MachineModel,
    i: int,
    bits: u64,
    t: int,
    mask: u64,
    deadline: u64,
)
    requires
        m.sized(),
        0 <= i < MAX_SIGNALS,
        0 <= t < MAX_THREADS,
        m.signals[i].used,
        mask & bits != 0,
    ensures
        ({
            let generation = m.signals[i].generation;
            let asleep = m.wait_begun(t, Wait::Signal(i as u16, generation, mask), deadline);
            let after = asleep.raised(i, generation, bits);
            &&& after.threads[t].state == ThreadState::Ready
            &&& after.signals[i].bits & mask != 0
            &&& after.signals[i].sequence != m.signals[i].sequence
        }),
{
    let held = m.signals[i].bits;
    assert((held | bits) & mask != 0) by (bit_vector)
        requires
            mask & bits != 0,
    ;
}

/// An expiry bound to a signal that is gone raises nothing, even when another
/// signal has taken its slot.
pub proof fn stale_expiry_raises_nothing(m: MachineModel, i: int)
    requires
        m.sized(),
        0 <= i < MAX_TIMERS,
        m.timers[i].signal < MAX_SIGNALS,
        m.timers[i].signal_generation != m.signals[m.timers[i].signal as int].generation,
    ensures
        m.fired(i).signals == m.signals,
        m.fired(i).threads == m.threads,
{
}

} // verus!
