//! Waiting and waking.
//!
//! A thread waits for one thing at a time, and is woken only while it still
//! waits for the thing that happened: a stale notification wakes nobody.

use vstd::prelude::*;

use crate::abi::status::Status;
use crate::limits::MAX_THREADS;
use crate::state::{Machine, MachineModel, Thread, ThreadState, Wait, WakeHint};

verus! {

impl MachineModel {
    /// The thread is blocked on `wait`.
    pub open spec fn waits_for(self, t: int, wait: Wait) -> bool {
        self.threads[t].state == ThreadState::Blocked && self.threads[t].wait == wait
    }

    /// The machine once a thread's wait has ended with `status`.
    pub open spec fn wake(self, t: int, status: Status, hint: WakeHint) -> MachineModel {
        self.with_thread(t, woken(self.threads[t], status, hint))
    }

    /// The machine once a thread blocked on `wait`, if it is, has been woken.
    pub open spec fn wake_waiting(
        self,
        t: int,
        wait: Wait,
        status: Status,
        hint: WakeHint,
    ) -> MachineModel {
        if self.waits_for(t, wait) {
            self.wake(t, status, hint)
        } else {
            self
        }
    }

    /// The first thread that is blocked on `wait`, or [`MAX_THREADS`].
    pub open spec fn first_waiting(self, wait: Wait) -> int {
        first_waiting_from(self.threads, wait, 0)
    }

    /// The machine once a thread has begun to wait.
    pub open spec fn wait_begun(self, t: int, wait: Wait, deadline: u64) -> MachineModel {
        self.with_thread(
            t,
            Thread {
                state: ThreadState::Blocked,
                wait,
                wait_deadline_ns: deadline,
                wake_status: Status::Success,
                ..self.threads[t]
            },
        )
    }
}

/// A thread whose wait has ended with `status`.
pub open spec fn woken(thread: Thread, status: Status, hint: WakeHint) -> Thread {
    Thread {
        state: ThreadState::Ready,
        wait: Wait::Nothing,
        wait_deadline_ns: 0,
        wake_status: status,
        wake_hint: hint,
        ..thread
    }
}

/// The first thread from `from` on that is blocked on `wait`, or
/// [`MAX_THREADS`].
pub open spec fn first_waiting_from(threads: Seq<Thread>, wait: Wait, from: int) -> int
    decreases MAX_THREADS - from,
{
    if from >= MAX_THREADS {
        MAX_THREADS as int
    } else if threads[from].state == ThreadState::Blocked && threads[from].wait == wait {
        from
    } else {
        first_waiting_from(threads, wait, from + 1)
    }
}

/// Ends a thread's wait.
pub fn wake(machine: &mut Machine, t: usize, status: Status, hint: WakeHint)
    requires
        old(machine).wf(),
        t < MAX_THREADS,
    ensures
        final(machine).wf(),
        final(machine).same_tables(*old(machine)),
        final(machine)@ == old(machine)@.wake(t as int, status, hint),
{
    let thread = machine.thread(t);
    machine.set_thread(
        t,
        Thread {
            state: ThreadState::Ready,
            wait: Wait::Nothing,
            wait_deadline_ns: 0,
            wake_status: status,
            wake_hint: hint,
            ..thread
        },
    );
}

/// Ends a thread's wait if it is still the one named.
pub fn wake_if(machine: &mut Machine, t: usize, wait: Wait, status: Status, hint: WakeHint) -> (
    woken: bool)
    requires
        old(machine).wf(),
        t < MAX_THREADS,
    ensures
        final(machine).wf(),
        final(machine).same_tables(*old(machine)),
        woken == old(machine)@.waits_for(t as int, wait),
        final(machine)@ == old(machine)@.wake_waiting(t as int, wait, status, hint),
{
    let thread = machine.thread(t);
    if thread.state == ThreadState::Blocked && thread.wait == wait {
        wake(machine, t, status, hint);
        true
    } else {
        false
    }
}

/// Wakes the first thread that waits for `wait`.
pub fn wake_first(machine: &mut Machine, wait: Wait, status: Status, hint: WakeHint) -> (
    woken: bool)
    requires
        old(machine).wf(),
    ensures
        final(machine).wf(),
        final(machine).same_tables(*old(machine)),
        ({
            let t = old(machine)@.first_waiting(wait);
            &&& woken == (t < MAX_THREADS)
            &&& final(machine)@ == if t < MAX_THREADS {
                old(machine)@.wake(t, status, hint)
            } else {
                old(machine)@
            }
        }),
{
    for t in 0..MAX_THREADS
        invariant
            *machine == *old(machine),
            machine.wf(),
            machine@.first_waiting(wait) == first_waiting_from(machine@.threads, wait, t as int),
    {
        let thread = machine.thread(t);
        if thread.state == ThreadState::Blocked && thread.wait == wait {
            wake(machine, t, status, hint);
            return true;
        }
    }
    false
}

/// Records that a thread waits from now on.
pub fn prepare_wait(machine: &mut Machine, t: usize, wait: Wait, deadline: u64)
    requires
        old(machine).wf(),
        t < MAX_THREADS,
    ensures
        final(machine).wf(),
        final(machine).same_tables(*old(machine)),
        final(machine)@ == old(machine)@.wait_begun(t as int, wait, deadline),
{
    let thread = machine.thread(t);
    machine.set_thread(
        t,
        Thread {
            state: ThreadState::Blocked,
            wait,
            wait_deadline_ns: deadline,
            wake_status: Status::Success,
            ..thread
        },
    );
}

} // verus!
