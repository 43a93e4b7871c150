//! Signals and timers.

use vstd::prelude::*;

use crate::abi::status::Status;
use crate::api::evtops::Looked;
use crate::api::Ctx;
use crate::laws::how_many;
use crate::laws::authority::a_handle_permits_what_its_entry_says;
use crate::limits::{MAX_SIGNALS, MAX_THREADS, MAX_TIMERS};
use crate::state::{MachineModel, ThreadState, Wait};

verus! {

/// Sleeps until one of some bits of a signal is raised.
pub open spec fn sleeps_on(m: MachineModel, t: int, i: int, bits: u64) -> bool {
    &&& m.threads[t].state == ThreadState::Blocked
    &&& m.threads[t].wait matches Wait::Signal(s, g, mask) && s == i && g
        == m.signals[i].generation && mask & bits != 0
}

/// Raising adds to what is pending: no pending bit is lost, every raised bit is
/// pending, and no other bit is. The sequence moves on, and the signal is the
/// same in everything else.
pub proof fn raising_coalesces(m: MachineModel, i: int, bits: u64)
    requires
        m.sized(),
        0 <= i < MAX_SIGNALS,
        m.signals[i].used,
    ensures
        ({
            let before = m.signals[i];
            let after = m.raised(i, before.generation, bits).signals[i];
            &&& after.bits & before.bits == before.bits
            &&& after.bits & bits == bits
            &&& after.bits & !(before.bits | bits) == 0
            &&& after.sequence != before.sequence
            &&& before.sequence < u64::MAX ==> after.sequence == before.sequence + 1
            &&& after == (crate::events::Signal {
                bits: after.bits,
                sequence: after.sequence,
                ..before
            })
        }),
{
    let held = m.signals[i].bits;
    assert((held | bits) & held == held && (held | bits) & bits == bits && (held | bits) & !(held
        | bits) == 0) by (bit_vector);
}

/// Two raises with nothing between them are as one of both, whatever their
/// order: what each raised is pending.
pub proof fn raises_add_up(m: MachineModel, i: int, first: u64, second: u64)
    requires
        m.sized(),
        0 <= i < MAX_SIGNALS,
        m.signals[i].used,
    ensures
        ({
            let g = m.signals[i].generation;
            let one = m.raised(i, g, first).raised(i, g, second).signals[i].bits;
            let other = m.raised(i, g, second).raised(i, g, first).signals[i].bits;
            &&& one == other
            &&& one & first == first
            &&& one & second == second
            &&& one & m.signals[i].bits == m.signals[i].bits
            &&& one & !(m.signals[i].bits | first | second) == 0
        }),
{
    let held = m.signals[i].bits;
    assert((held | first) | second == (held | second) | first && ((held | first) | second) & first
        == first && ((held | first) | second) & second == second && ((held | first) | second) & held
        == held && ((held | first) | second) & !(held | first | second) == 0) by (bit_vector);
}

/// A raise touches one signal, and wakes exactly the threads that sleep on one
/// of its bits. A signal that is gone, or has another generation, is not raised.
pub proof fn raising_touches_one_signal(m: MachineModel, i: int, generation: u32, bits: u64)
    requires
        m.sized(),
        0 <= i < MAX_SIGNALS,
    ensures
        ({
            let after = m.raised(i, generation, bits);
            &&& after == (MachineModel { signals: after.signals, threads: after.threads, ..m })
            &&& after.signals.len() == m.signals.len()
            &&& after.threads.len() == m.threads.len()
            &&& forall|k: int|
                0 <= k < MAX_SIGNALS && k != i ==> #[trigger] after.signals[k] == m.signals[k]
            &&& !(m.signals[i].used && m.signals[i].generation == generation) ==> after == m
            &&& m.signals[i].used && m.signals[i].generation == generation ==> forall|t: int|
                0 <= t < MAX_THREADS ==> {
                    if sleeps_on(m, t, i, bits) {
                        &&& (#[trigger] after.threads[t]).state == ThreadState::Ready
                        &&& after.threads[t].wake_status == Status::Success
                        &&& after.threads[t].domain == m.threads[t].domain
                    } else {
                        after.threads[t] == m.threads[t]
                    }
                }
        }),
{
}

/// A look takes what is pending of what was asked for, all of it and nothing
/// else: what it reports and what stays pending are apart, and together they are
/// what was pending. Where nothing is, no signal changes.
pub proof fn looking_consumes_what_it_reports(m: MachineModel, ctx: Ctx, bits: u64, now: u64)
    requires
        m.wf(),
        ctx.domain < crate::limits::MAX_DOMAINS,
    ensures
        ({
            let (after, result) = m.looked(ctx, bits, now);
            match result {
                Ok(Looked::Bits(info)) => exists|i: int|
                    {
                        &&& 0 <= i < MAX_SIGNALS
                        &&& info.object_id == m.signals[i].id
                        &&& info.sequence == m.signals[i].sequence
                        &&& info.bits != 0
                        &&& info.bits & bits == info.bits
                        &&& (#[trigger] after.signals[i]).bits & info.bits == 0
                        &&& after.signals[i].bits | info.bits == m.signals[i].bits
                        &&& after.signals[i].bits & bits == 0
                        &&& after == (MachineModel {
                            signals: m.signals.update(
                                i,
                                crate::events::Signal {
                                    bits: after.signals[i].bits,
                                    ..m.signals[i]
                                },
                            ),
                            ..m
                        })
                    },
                _ => after.signals == m.signals,
            }
        }),
{
    let (after, result) = m.looked(ctx, bits, now);
    match result {
        Ok(Looked::Bits(info)) => {
            let cap = m.resolved(
                ctx.domain as int,
                ctx.handle,
                crate::abi::object_type::SIGNAL,
                crate::abi::right::SIGNAL_WAIT,
                now,
            )->Ok_0;
            let i = cap.object.index as int;
            a_handle_permits_what_its_entry_says(
                m,
                ctx.domain as int,
                ctx.handle,
                crate::abi::object_type::SIGNAL,
                crate::abi::right::SIGNAL_WAIT,
                now,
            );
            let held = m.signals[i].bits;
            let seen = held & bits;
            assert(seen & bits == seen && (held & !seen) & seen == 0 && (held & !seen) | seen
                == held && (held & !seen) & bits == 0) by (bit_vector)
                requires
                    seen == held & bits,
            ;
            assert(after.signals =~= m.signals.update(
                i,
                crate::events::Signal { bits: after.signals[i].bits, ..m.signals[i] },
            ));
            assert(after.signals[i].bits | info.bits == m.signals[i].bits);
        },
        _ => {},
    }
}

/// Firing touches the timer and the signal it is bound to: the timer is no longer
/// armed and has fired once more, the signal gets the timer's bits, and every
/// other timer and signal stays what it was.
pub proof fn firing_raises_the_bound_signal(m: MachineModel, i: int)
    requires
        m.wf(),
        0 <= i < MAX_TIMERS,
    ensures
        ({
            let timer = m.timers[i];
            let s = timer.signal as int;
            let after = m.fired(i);
            &&& after == (MachineModel {
                timers: after.timers,
                signals: after.signals,
                threads: after.threads,
                ..m
            })
            &&& after.timers.len() == m.timers.len()
            &&& after.signals.len() == m.signals.len()
            &&& !after.timers[i].armed
            &&& after.timers[i] == (crate::events::Timer {
                armed: false,
                fired: after.timers[i].fired,
                ..timer
            })
            &&& timer.fired < u64::MAX ==> after.timers[i].fired == timer.fired + 1
            &&& forall|k: int|
                0 <= k < MAX_TIMERS && k != i ==> #[trigger] after.timers[k] == m.timers[k]
            &&& forall|k: int|
                0 <= k < MAX_SIGNALS && k != s ==> #[trigger] after.signals[k] == m.signals[k]
            &&& m.signals[s].used && m.signals[s].generation == timer.signal_generation ==> {
                &&& after.signals[s].bits & timer.bits == timer.bits
                &&& after.signals[s].bits & m.signals[s].bits == m.signals[s].bits
                &&& after.signals[s].bits & !(m.signals[s].bits | timer.bits) == 0
            }
            &&& !(m.signals[s].used && m.signals[s].generation == timer.signal_generation)
                ==> after.signals[s] == m.signals[s]
        }),
{
    let timer = m.timers[i];
    let s = timer.signal as int;
    let quiet = m.with_timer(
        i,
        crate::events::Timer {
            armed: false,
            fired: m.fired(i).timers[i].fired,
            ..timer
        },
    );
    assert(quiet.signals == m.signals);
    if m.signals[s].used && m.signals[s].generation == timer.signal_generation {
        raising_coalesces(quiet, s, timer.bits);
    }
    raising_touches_one_signal(quiet, s, timer.signal_generation, timer.bits);
}

/// A timer that was armed for then or earlier.
pub open spec fn was_due(m: MachineModel, now: u64) -> spec_fn(int) -> bool {
    |k: int| m.timers[k].used && m.timers[k].armed && m.timers[k].deadline_ns <= now
}

/// What became of timer `k` when the first `n` were looked at: one that was armed
/// for then or earlier is disarmed and its live signal has its bits, any other is
/// as it was.
pub open spec fn went_by(
    m: MachineModel,
    after: MachineModel,
    now: u64,
    n: int,
    k: int,
) -> bool {
    let before = m.timers[k];
    if k < n && before.used && before.armed && before.deadline_ns <= now {
        let s = before.signal as int;
        &&& !after.timers[k].armed
        &&& after.timers[k].deadline_ns == before.deadline_ns
        &&& m.signals[s].used && m.signals[s].generation == before.signal_generation
            ==> after.signals[s].bits & before.bits == before.bits
    } else {
        after.timers[k] == before
    }
}

/// Time passing fires exactly the timers that were armed for then or earlier: each
/// is disarmed and its live signal has its bits, no other timer changes, no pending
/// bit is lost, and the answer is how many there were.
pub proof fn time_fires_what_is_due(m: MachineModel, now: u64, n: int)
    requires
        m.wf(),
        0 <= n <= MAX_TIMERS,
    ensures
        ({
            let after = m.expired(now, n as nat).0;
            &&& after == (MachineModel {
                timers: after.timers,
                signals: after.signals,
                threads: after.threads,
                ..m
            })
            &&& after.timers.len() == m.timers.len()
            &&& after.signals.len() == m.signals.len()
            &&& after.threads.len() == m.threads.len()
        }),
        ({
            let after = m.expired(now, n as nat).0;
            forall|k: int| 0 <= k < MAX_TIMERS ==> #[trigger] went_by(m, after, now, n, k)
        }),
        ({
            let after = m.expired(now, n as nat).0;
            forall|s: int|
                0 <= s < MAX_SIGNALS ==> {
                    &&& (#[trigger] after.signals[s]).bits & m.signals[s].bits == m.signals[s].bits
                    &&& after.signals[s].used == m.signals[s].used
                    &&& after.signals[s].generation == m.signals[s].generation
                }
        }),
        m.expired(now, n as nat).1 == how_many(was_due(m, now), n),
    decreases n,
{
    let due = was_due(m, now);
    if n == 0 {
        assert forall|s: int| 0 <= s < MAX_SIGNALS implies (#[trigger] m.signals[s]).bits
            & m.signals[s].bits == m.signals[s].bits by {
            let b = m.signals[s].bits;
            same_bits(b);
        }
    } else {
        time_fires_what_is_due(m, now, n - 1);
        let (before, count) = m.expired(now, (n - 1) as nat);
        let (after, _) = m.expired(now, n as nat);
        how_many_is_bounded(due, n - 1);
        assert(went_by(m, before, now, n - 1, n - 1));
        if before.is_due(n - 1, now) {
            let timer = m.timers[n - 1];
            let i = timer.signal as int;
            assert(crate::state::timer_ok(m.timers[n - 1]));
            if before.signals[i].used && before.signals[i].generation
                == timer.signal_generation {
                raising_coalesces(
                    before.with_timer(
                        n - 1,
                        crate::events::Timer {
                            armed: false,
                            fired: after.timers[n - 1].fired,
                            ..timer
                        },
                    ),
                    i,
                    timer.bits,
                );
            }
            raising_touches_one_signal(
                before.with_timer(
                    n - 1,
                    crate::events::Timer {
                        armed: false,
                        fired: after.timers[n - 1].fired,
                        ..timer
                    },
                ),
                i,
                timer.signal_generation,
                timer.bits,
            );
            assert forall|s: int| 0 <= s < MAX_SIGNALS implies {
                &&& (#[trigger] after.signals[s]).bits & m.signals[s].bits == m.signals[s].bits
                &&& after.signals[s].bits & before.signals[s].bits == before.signals[s].bits
                &&& after.signals[s].used == m.signals[s].used
                &&& after.signals[s].generation == m.signals[s].generation
            } by {
                same_bits(before.signals[s].bits);
                bits_kept_on(m.signals[s].bits, before.signals[s].bits, after.signals[s].bits);
            }
            assert forall|k: int| 0 <= k < MAX_TIMERS implies #[trigger] went_by(
                m,
                after,
                now,
                n,
                k,
            ) by {
                assert(went_by(m, before, now, n - 1, k));
                let t = m.timers[k];
                assert(crate::state::timer_ok(m.timers[k]));
                bits_kept_on(
                    t.bits,
                    before.signals[t.signal as int].bits,
                    after.signals[t.signal as int].bits,
                );
            }
        } else {
            assert forall|k: int| 0 <= k < MAX_TIMERS implies #[trigger] went_by(
                m,
                after,
                now,
                n,
                k,
            ) by {
                assert(went_by(m, before, now, n - 1, k));
            }
        }
    }
}

proof fn how_many_is_bounded(f: spec_fn(int) -> bool, n: int)
    requires
        0 <= n,
    ensures
        how_many(f, n) <= n,
    decreases n,
{
    if n > 0 {
        how_many_is_bounded(f, n - 1);
    }
}

pub(crate) proof fn same_bits(b: u64)
    by (bit_vector)
    ensures
        b & b == b,
{
}

/// What is kept of what was kept is kept.
pub(crate) proof fn bits_kept_on(a: u64, b: u64, c: u64)
    by (bit_vector)
    ensures
        b & a == a && c & b == b ==> c & a == a,
{
}

} // verus!
