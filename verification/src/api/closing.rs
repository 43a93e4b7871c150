//! What closing a perimeter or losing a domain does to messages in flight.
//!
//! A message still in a queue is an obligation of the sender's perimeter; one
//! that a receiver already took is an obligation of the receiver. Only the
//! first can be withdrawn.

use vstd::prelude::*;

use crate::abi::outcome;
use crate::abi::request::SendRequest;
use crate::abi::status::Status;
use crate::abi::{message_kind, right};
use crate::api::ipcops::admit_message;
use crate::api::obligations::{release_invocation, wake_waiter};
use crate::api::{cap_release_slot, hold_grant, object_alive, Ctx, Resolved};
use crate::bytes::{array_of, array_of_elements, le_bytes, put_u64};
use crate::ctrl::{one_less, one_more};
use crate::ipc::{Cancel, Endpoint, Invocation, Message, State, NO_DOMAIN};
use crate::limits::{
    MAX_DERIVE_DEPTH, MAX_DOMAINS, MAX_ENDPOINTS, MAX_INLINE_PAYLOAD, MAX_INVOCATIONS, MAX_MESSAGES,
    MAX_MESSAGE_CAPS, MAX_SCOPES, MAX_THREADS,
};
use crate::obj::{cap_at, without_cap, ObjKind, NO_GRANT};
use crate::scope::{within, Resource, Scope};
use crate::state::{
    calm_goes_on, is_calm, untouched_is_calm, Domain, FaultRecord, Machine, MachineModel, WakeHint,
};

verus! {

impl MachineModel {
    /// The machine once the first `n` capabilities that came with a message have
    /// been taken from its receiver again.
    pub open spec fn taken_back(self, receiver: int, message: Message, n: nat) -> MachineModel
        decreases n,
    {
        if n == 0 {
            self
        } else {
            self.taken_back(receiver, message, (n - 1) as nat).release_slot(
                receiver,
                message.caps@[n - 1].slot as int,
            )
        }
    }

    /// The machine once message `k` is no longer queued on endpoint `e` and its
    /// record is free.
    pub open spec fn unqueued(self, e: int, k: int) -> MachineModel {
        let message = self.messages[k];
        let cut = self.with_queue(
            e,
            crate::tables::unlinked(self.queues[e], k as u16),
        ).with_endpoint(
            e,
            Endpoint {
                queued: one_less(self.endpoints[e].queued),
                reserved_used: if message.reserved_cell {
                    one_less(self.endpoints[e].reserved_used)
                } else {
                    self.endpoints[e].reserved_used
                },
                ..self.endpoints[e]
            },
        );
        let receiver = self.endpoints[e].receiver_domain;
        let emptied = if receiver == NO_DOMAIN {
            cut
        } else {
            cut.taken_back(receiver as int, message, message.cap_count as nat)
        };
        emptied.with_message(k, Message::empty_spec())
    }

    /// The machine with an invocation marked as ended by its origin.
    pub open spec fn origin_gone(self, i: int, cancel: Cancel) -> MachineModel {
        self.with_invocation(
            i,
            Invocation { cancel, outcome: outcome::ABORTED, ..self.invocations[i] },
        )
    }

    /// Message `k` was admitted for a scope within `root` and nobody has taken
    /// it.
    pub open spec fn is_undelivered(self, k: int, root: int) -> bool {
        let invocation = self.invocations[self.messages[k].invocation as int];
        invocation.state == State::Admitted && within(
            self.scopes,
            root,
            invocation.origin_scope as int,
        )
    }

    /// The machine once message `k` has been withdrawn because its perimeter
    /// closed.
    pub open spec fn withdraw_closed(self, e: int, k: int, now: u64) -> MachineModel {
        let i = self.messages[k].invocation as int;
        let origin = self.invocations[i].origin_scope as int;
        let released = self.unqueued(e, k).origin_gone(i, Cancel::OriginFenced).wake_waiter(
            i,
            Status::Cancelled,
            WakeHint::Any,
        ).release_invocation(i, now);
        released.with_scope(
            origin,
            Scope {
                undelivered: one_more(released.scopes[origin].undelivered),
                ..released.scopes[origin]
            },
        )
    }

    /// The machine, and the number of messages withdrawn, once the first `n`
    /// messages of `queue` have been considered.
    pub open spec fn withdrawn_of(
        self,
        e: int,
        queue: Seq<u16>,
        root: int,
        now: u64,
        n: nat,
    ) -> (MachineModel, u32)
        decreases n,
    {
        if n == 0 {
            (self, 0)
        } else {
            let (before, count) = self.withdrawn_of(e, queue, root, now, (n - 1) as nat);
            let k = queue[n - 1] as int;
            if before.is_undelivered(k, root) {
                (before.withdraw_closed(e, k, now), one_more(count))
            } else {
                (before, count)
            }
        }
    }

    /// The machine, and the number of messages withdrawn, once the first `n`
    /// endpoints have been considered.
    pub open spec fn withdrawn(self, root: int, now: u64, n: nat) -> (MachineModel, u32)
        decreases n,
    {
        if n == 0 {
            (self, 0)
        } else {
            let (before, count) = self.withdrawn(root, now, (n - 1) as nat);
            let e = n - 1;
            if before.endpoints[e].used {
                let queue = before.queues[e];
                let (after, more) = before.withdrawn_of(e, queue, root, now, queue.len());
                (after, crate::scope::plus(count, more))
            } else {
                (before, count)
            }
        }
    }

    /// An invocation that is still owed and was sent for a scope within `root`.
    pub open spec fn is_owed_within(self, i: int, root: int) -> bool {
        let invocation = self.invocations[i];
        &&& invocation.state != State::Empty
        &&& invocation.state != State::Resolved
        &&& within(self.scopes, root, invocation.origin_scope as int)
    }

    /// The machine once every invocation that is still owed within `root` says
    /// that its origin is closed.
    pub open spec fn marked_cancelled(self, root: int) -> MachineModel {
        MachineModel {
            invocations: Seq::new(
                self.invocations.len(),
                |i: int|
                    if self.is_owed_within(i, root) {
                        Invocation { cancel: Cancel::OriginFenced, ..self.invocations[i] }
                    } else {
                        self.invocations[i]
                    },
            ),
            ..self
        }
    }

    /// An invocation that a domain of the given generation sent.
    pub open spec fn is_sent_by(self, i: int, domain: int, generation: u32) -> bool {
        self.invocations[i].origin_domain == domain
            && self.invocations[i].origin_domain_generation == generation
    }

    /// The machine once those of the first `n` messages of `queue` that the dead
    /// domain sent have been withdrawn. The report of the fault that ended it is
    /// not among them.
    pub open spec fn orphans_of(
        self,
        e: int,
        queue: Seq<u16>,
        domain: int,
        generation: u32,
        now: u64,
        n: nat,
    ) -> MachineModel
        decreases n,
    {
        if n == 0 {
            self
        } else {
            let before = self.orphans_of(e, queue, domain, generation, now, (n - 1) as nat);
            let k = queue[n - 1] as int;
            let i = before.messages[k].invocation as int;
            if before.is_sent_by(i, domain, generation) && before.messages[k].kind
                != message_kind::FAULT {
                before.unqueued(e, k).origin_gone(i, Cancel::OriginDead).release_invocation(i, now)
            } else {
                before
            }
        }
    }

    /// The machine once the messages the dead domain sent have been withdrawn
    /// from the first `n` endpoints.
    pub open spec fn orphans_withdrawn(
        self,
        domain: int,
        generation: u32,
        now: u64,
        n: nat,
    ) -> MachineModel
        decreases n,
    {
        if n == 0 {
            self
        } else {
            let before = self.orphans_withdrawn(domain, generation, now, (n - 1) as nat);
            let e = n - 1;
            if before.endpoints[e].used {
                let queue = before.queues[e];
                before.orphans_of(e, queue, domain, generation, now, queue.len())
            } else {
                before
            }
        }
    }

    /// The machine once invocation `i`, if it is still owed, knows of the death
    /// of a domain: as its origin, or as the receiver that will not answer.
    pub open spec fn bereaved(
        self,
        i: int,
        domain: int,
        generation: u32,
        now: u64,
    ) -> MachineModel {
        let invocation = self.invocations[i];
        if invocation.state == State::Empty || invocation.state == State::Resolved {
            self
        } else {
            let told = if self.is_sent_by(i, domain, generation) {
                self.with_invocation(
                    i,
                    Invocation { cancel: Cancel::OriginDead, waiter: None, ..invocation },
                )
            } else {
                self
            };
            // The result is unknown, not aborted: the kernel never invents a
            // rollback.
            if invocation.state == State::Delivered && invocation.receiver_domain == domain {
                told.with_invocation(
                    i,
                    Invocation { outcome: outcome::UNKNOWN, ..told.invocations[i] },
                ).wake_waiter(i, Status::PeerDead, WakeHint::Any).release_invocation(i, now)
            } else {
                told
            }
        }
    }

    /// The machine once the first `n` invocations know of the death.
    pub open spec fn all_bereaved(
        self,
        domain: int,
        generation: u32,
        now: u64,
        n: nat,
    ) -> MachineModel
        decreases n,
    {
        if n == 0 {
            self
        } else {
            self.all_bereaved(domain, generation, now, (n - 1) as nat).bereaved(
                n - 1,
                domain,
                generation,
                now,
            )
        }
    }

    /// The machine once the endpoints the dead domain received on are shut.
    pub open spec fn receivers_shut(self, domain: int, generation: u32) -> MachineModel {
        MachineModel {
            endpoints: Seq::new(
                self.endpoints.len(),
                |e: int|
                    if self.endpoints[e].used && self.endpoints[e].receiver_domain == domain
                        && self.endpoints[e].receiver_generation == generation {
                        Endpoint { open: false, ..self.endpoints[e] }
                    } else {
                        self.endpoints[e]
                    },
            ),
            ..self
        }
    }

    /// The machine once a domain reports its faults nowhere.
    pub open spec fn channel_dropped(self, domain: int) -> MachineModel {
        match self.domains[domain].fault_endpoint {
            None => self,
            Some(o) => {
                let e = o.index as int;
                let freed = if self.endpoints[e].used && self.endpoints[e].generation
                    == o.generation {
                    self.with_endpoint(
                        e,
                        Endpoint {
                            reserved_cells: one_less(self.endpoints[e].reserved_cells),
                            ..self.endpoints[e]
                        },
                    )
                } else {
                    self
                };
                freed.count_grant(self.domains[domain].fault_grant, false).with_domain(
                    domain,
                    Domain {
                        fault_endpoint: None,
                        fault_grant: NO_GRANT,
                        fault_reserved: false,
                        ..self.domains[domain]
                    },
                )
            },
        }
    }

    /// The machine once everything in flight knows of the death of a domain.
    pub open spec fn mourned(self, domain: int, now: u64) -> MachineModel {
        let generation = self.domains[domain].generation;
        self.orphans_withdrawn(domain, generation, now, MAX_ENDPOINTS as nat).all_bereaved(
            domain,
            generation,
            now,
            MAX_INVOCATIONS as nat,
        ).receivers_shut(domain, generation).channel_dropped(domain)
    }
}

/// Takes the capabilities that came with a message from its receiver again.
fn take_back(machine: &mut Machine, receiver: usize, message: &Message)
    requires
        old(machine).wf(),
        receiver < MAX_DOMAINS,
        crate::state::message_ok(*message),
    ensures
        final(machine).wf(),
        final(machine).same_tables(*old(machine)),
        final(machine)@ == old(machine)@.taken_back(
            receiver as int,
            *message,
            message.cap_count as nat,
        ),
        is_calm(old(machine)@, final(machine)@),
{
    let count: usize = message.cap_count as usize;
    proof {
        untouched_is_calm(machine@, machine@);
    }
    for n in 0..count
        invariant
            is_calm(old(machine)@, machine@),
            machine.wf(),
            machine.same_tables(*old(machine)),
            receiver < MAX_DOMAINS,
            crate::state::message_ok(*message),
            count == message.cap_count,
            machine@ == old(machine)@.taken_back(receiver as int, *message, n as nat),
    {
        assert(message.caps@[n as int].slot < crate::limits::MAX_CAPS);
        let ghost before = machine@;
        cap_release_slot(machine, receiver, message.caps[n].slot as usize);
        proof {
            calm_goes_on(old(machine)@, before, machine@);
        }
    }
}

/// Takes message `k` off the queue of endpoint `e` and frees its record.
fn unqueue(machine: &mut Machine, e: usize, k: u16)
    requires
        old(machine).wf(),
        e < MAX_ENDPOINTS,
        k < MAX_MESSAGES,
    ensures
        final(machine).wf(),
        final(machine).same_tables(*old(machine)),
        final(machine)@ == old(machine)@.unqueued(e as int, k as int),
        is_calm(old(machine)@, final(machine)@),
{
    let message = machine.message(k as usize);
    machine.unlink(e, k);
    let endpoint = machine.endpoint(e);
    machine.set_endpoint(
        e,
        Endpoint {
            queued: endpoint.queued.saturating_sub(1),
            reserved_used: if message.reserved_cell {
                endpoint.reserved_used.saturating_sub(1)
            } else {
                endpoint.reserved_used
            },
            ..endpoint
        },
    );
    let ghost cut = machine@;
    proof {
        untouched_is_calm(old(machine)@, cut);
        untouched_is_calm(cut, cut);
    }
    if endpoint.receiver_domain != NO_DOMAIN {
        take_back(machine, endpoint.receiver_domain as usize, &message);
    }
    let ghost emptied = machine@;
    machine.set_message(k as usize, Message::empty());
    proof {
        untouched_is_calm(emptied, machine@);
        calm_goes_on(old(machine)@, cut, emptied);
        calm_goes_on(old(machine)@, emptied, machine@);
    }
}

/// Marks an invocation as ended by its origin.
fn end_by_origin(machine: &mut Machine, i: usize, cancel: Cancel)
    requires
        old(machine).wf(),
        i < MAX_INVOCATIONS,
    ensures
        final(machine).wf(),
        final(machine).same_tables(*old(machine)),
        final(machine)@ == old(machine)@.origin_gone(i as int, cancel),
{
    let invocation = machine.invocation(i);
    machine.set_invocation(i, Invocation { cancel, outcome: outcome::ABORTED, ..invocation });
}

/// Withdraws the undelivered messages of a perimeter from one endpoint.
fn withdraw_from(machine: &mut Machine, e: usize, root: u16, now: u64) -> (count: u32)
    requires
        old(machine).wf(),
        e < MAX_ENDPOINTS,
        root < MAX_SCOPES,
    ensures
        final(machine).wf(),
        final(machine).same_tables(*old(machine)),
        (final(machine)@, count) == old(machine)@.withdrawn_of(
            e as int,
            old(machine)@.queues[e as int],
            root as int,
            now,
            old(machine)@.queues[e as int].len(),
        ),
{
    let queue = machine.queue(e);
    let mut count: u32 = 0;
    for n in 0..queue.len()
        invariant
            machine.wf(),
            machine.same_tables(*old(machine)),
            e < MAX_ENDPOINTS,
            root < MAX_SCOPES,
            forall|k: int| 0 <= k < queue@.len() ==> #[trigger] queue@[k] < MAX_MESSAGES,
            (machine@, count) == old(machine)@.withdrawn_of(
                e as int,
                queue@,
                root as int,
                now,
                n as nat,
            ),
    {
        let k: u16 = queue[n];
        let i: usize = machine.message(k as usize).invocation as usize;
        let invocation = machine.invocation(i);
        if invocation.state == State::Admitted && machine.scope_within(
            root,
            invocation.origin_scope,
        ) {
            unqueue(machine, e, k);
            end_by_origin(machine, i, Cancel::OriginFenced);
            wake_waiter(machine, i, Status::Cancelled, WakeHint::Any);
            release_invocation(machine, i, now);
            let origin: usize = invocation.origin_scope as usize;
            let scope = machine.scope(origin);
            machine.set_scope(
                origin,
                Scope { undelivered: scope.undelivered.saturating_add(1), ..scope },
            );
            count = count.saturating_add(1);
        }
    }
    count
}

/// Withdraws every message admitted under a closed scope that nobody has
/// received, and returns how many there were.
pub fn withdraw_undelivered(machine: &mut Machine, root: u16, now: u64) -> (count: u32)
    requires
        old(machine).wf(),
        root < MAX_SCOPES,
    ensures
        final(machine).wf(),
        final(machine).same_tables(*old(machine)),
        (final(machine)@, count) == old(machine)@.withdrawn(
            root as int,
            now,
            MAX_ENDPOINTS as nat,
        ),
{
    let mut count: u32 = 0;
    for e in 0..MAX_ENDPOINTS
        invariant
            machine.wf(),
            machine.same_tables(*old(machine)),
            root < MAX_SCOPES,
            (machine@, count) == old(machine)@.withdrawn(root as int, now, e as nat),
    {
        if machine.endpoint(e).used {
            let more: u32 = withdraw_from(machine, e, root, now);
            count = count.saturating_add(more);
        }
    }
    count
}

/// Marks the invocations of a closed perimeter so a receiver can see it.
pub fn mark_cancelled(machine: &mut Machine, root: u16)
    requires
        old(machine).wf(),
        root < MAX_SCOPES,
    ensures
        final(machine).wf(),
        final(machine).same_tables(*old(machine)),
        final(machine)@ == old(machine)@.marked_cancelled(root as int),
{
    let ghost before = machine@;
    proof {
        machine.wf_sized();
    }
    for i in 0..MAX_INVOCATIONS
        invariant
            machine.wf(),
            machine.same_tables(*old(machine)),
            root < MAX_SCOPES,
            before.invocations.len() == MAX_INVOCATIONS,
            machine@ == (MachineModel { invocations: machine@.invocations, ..before }),
            machine@.invocations.len() == before.invocations.len(),
            forall|k: int|
                0 <= k < MAX_INVOCATIONS ==> #[trigger] machine@.invocations[k] == if k < i {
                    before.marked_cancelled(root as int).invocations[k]
                } else {
                    before.invocations[k]
                },
    {
        let invocation = machine.invocation(i);
        if invocation.state != State::Empty && invocation.state != State::Resolved
            && machine.scope_within(root, invocation.origin_scope) {
            machine.set_invocation(i, Invocation { cancel: Cancel::OriginFenced, ..invocation });
        }
    }
    assert(machine@ =~= before.marked_cancelled(root as int));
}

/// Withdraws the messages of a dead domain from one endpoint.
fn withdraw_orphans(machine: &mut Machine, e: usize, domain: usize, generation: u32, now: u64)
    requires
        old(machine).wf(),
        e < MAX_ENDPOINTS,
        domain < MAX_DOMAINS,
    ensures
        final(machine).wf(),
        final(machine).same_tables(*old(machine)),
        final(machine)@ == old(machine)@.orphans_of(
            e as int,
            old(machine)@.queues[e as int],
            domain as int,
            generation,
            now,
            old(machine)@.queues[e as int].len(),
        ),
        is_calm(old(machine)@, final(machine)@),
{
    let queue = machine.queue(e);
    proof {
        untouched_is_calm(machine@, machine@);
    }
    for n in 0..queue.len()
        invariant
            machine.wf(),
            machine.same_tables(*old(machine)),
            is_calm(old(machine)@, machine@),
            e < MAX_ENDPOINTS,
            domain < MAX_DOMAINS,
            forall|k: int| 0 <= k < queue@.len() ==> #[trigger] queue@[k] < MAX_MESSAGES,
            machine@ == old(machine)@.orphans_of(
                e as int,
                queue@,
                domain as int,
                generation,
                now,
                n as nat,
            ),
    {
        let k: u16 = queue[n];
        let message = machine.message(k as usize);
        let i: usize = message.invocation as usize;
        let invocation = machine.invocation(i);
        if invocation.origin_domain as usize == domain && invocation.origin_domain_generation
            == generation && message.kind != message_kind::FAULT {
            let ghost before = machine@;
            unqueue(machine, e, k);
            let ghost cut = machine@;
            end_by_origin(machine, i, Cancel::OriginDead);
            let ghost ended = machine@;
            release_invocation(machine, i, now);
            proof {
                untouched_is_calm(cut, ended);
                calm_goes_on(old(machine)@, before, cut);
                calm_goes_on(old(machine)@, cut, ended);
                calm_goes_on(old(machine)@, ended, machine@);
            }
        }
    }
}

/// Tells one invocation of the death of a domain.
fn bereave(machine: &mut Machine, i: usize, domain: usize, generation: u32, now: u64)
    requires
        old(machine).wf(),
        i < MAX_INVOCATIONS,
        domain < MAX_DOMAINS,
    ensures
        final(machine).wf(),
        final(machine).same_tables(*old(machine)),
        final(machine)@ == old(machine)@.bereaved(i as int, domain as int, generation, now),
        is_calm(old(machine)@, final(machine)@),
{
    proof {
        reveal(is_calm);
    }
    let invocation = machine.invocation(i);
    if invocation.state == State::Empty || invocation.state == State::Resolved {
        return;
    }
    if invocation.origin_domain as usize == domain && invocation.origin_domain_generation
        == generation {
        machine.set_invocation(
            i,
            Invocation { cancel: Cancel::OriginDead, waiter: None, ..invocation },
        );
    }
    if invocation.state == State::Delivered && invocation.receiver_domain as usize == domain {
        let told = machine.invocation(i);
        machine.set_invocation(i, Invocation { outcome: outcome::UNKNOWN, ..told });
        wake_waiter(machine, i, Status::PeerDead, WakeHint::Any);
        release_invocation(machine, i, now);
    }
}

/// Shuts the endpoints a dead domain received on.
fn shut_receivers(machine: &mut Machine, domain: usize, generation: u32)
    requires
        old(machine).wf(),
        domain < MAX_DOMAINS,
    ensures
        final(machine).wf(),
        final(machine).same_tables(*old(machine)),
        final(machine)@ == old(machine)@.receivers_shut(domain as int, generation),
{
    let ghost before = machine@;
    proof {
        machine.wf_sized();
    }
    for e in 0..MAX_ENDPOINTS
        invariant
            machine.wf(),
            machine.same_tables(*old(machine)),
            domain < MAX_DOMAINS,
            before.endpoints.len() == MAX_ENDPOINTS,
            machine@ == (MachineModel { endpoints: machine@.endpoints, ..before }),
            machine@.endpoints.len() == before.endpoints.len(),
            forall|k: int|
                0 <= k < MAX_ENDPOINTS ==> #[trigger] machine@.endpoints[k] == if k < e {
                    before.receivers_shut(domain as int, generation).endpoints[k]
                } else {
                    before.endpoints[k]
                },
    {
        let endpoint = machine.endpoint(e);
        if endpoint.used && endpoint.receiver_domain as usize == domain
            && endpoint.receiver_generation == generation {
            machine.set_endpoint(e, Endpoint { open: false, ..endpoint });
        }
    }
    assert(machine@ =~= before.receivers_shut(domain as int, generation));
}

/// Gives up the channel a domain reports its faults on.
fn drop_channel(machine: &mut Machine, domain: usize)
    requires
        old(machine).wf(),
        domain < MAX_DOMAINS,
    ensures
        final(machine).wf(),
        final(machine).same_tables(*old(machine)),
        final(machine)@ == old(machine)@.channel_dropped(domain as int),
        is_calm(old(machine)@, final(machine)@),
{
    proof {
        machine.wf_sized();
        reveal(is_calm);
    }
    let record = machine.domain(domain);
    match record.fault_endpoint {
        None => {},
        Some(object) => {
            let e: usize = object.index as usize;
            let endpoint = machine.endpoint(e);
            if endpoint.used && endpoint.generation == object.generation {
                machine.set_endpoint(
                    e,
                    Endpoint {
                        reserved_cells: endpoint.reserved_cells.saturating_sub(1),
                        ..endpoint
                    },
                );
            }
            hold_grant(machine, record.fault_grant, false);
            machine.set_domain(
                domain,
                Domain {
                    fault_endpoint: None,
                    fault_grant: NO_GRANT,
                    fault_reserved: false,
                    ..record
                },
            );
        },
    }
}

/// Cleans up after a domain died.
///
/// Messages it sent and nobody received are withdrawn, but for the report of
/// the fault that ended it; those a receiver took stay the receiver's obligation, marked so that it can see the origin is gone. What it
/// owed ends as unknown. The endpoints it received on stop admitting, and the
/// channel for its faults is given up.
pub fn on_domain_death(machine: &mut Machine, domain: usize, now: u64)
    requires
        old(machine).wf(),
        domain < MAX_DOMAINS,
    ensures
        final(machine).wf(),
        final(machine).same_tables(*old(machine)),
        final(machine)@ == old(machine)@.mourned(domain as int, now),
        is_calm(old(machine)@, final(machine)@),
{
    let generation: u32 = machine.domain(domain).generation;
    proof {
        untouched_is_calm(machine@, machine@);
    }
    for e in 0..MAX_ENDPOINTS
        invariant
            machine.wf(),
            machine.same_tables(*old(machine)),
            domain < MAX_DOMAINS,
            machine@ == old(machine)@.orphans_withdrawn(
                domain as int,
                generation,
                now,
                e as nat,
            ),
            is_calm(old(machine)@, machine@),
    {
        if machine.endpoint(e).used {
            let ghost before = machine@;
            withdraw_orphans(machine, e, domain, generation, now);
            proof {
                calm_goes_on(old(machine)@, before, machine@);
            }
        }
    }
    let ghost middle = machine@;
    for i in 0..MAX_INVOCATIONS
        invariant
            machine.wf(),
            machine.same_tables(*old(machine)),
            domain < MAX_DOMAINS,
            machine@ == middle.all_bereaved(domain as int, generation, now, i as nat),
            is_calm(old(machine)@, machine@),
    {
        let ghost before = machine@;
        bereave(machine, i, domain, generation, now);
        proof {
            calm_goes_on(old(machine)@, before, machine@);
        }
    }
    let ghost told = machine@;
    shut_receivers(machine, domain, generation);
    let ghost shut = machine@;
    drop_channel(machine, domain);
    proof {
        untouched_is_calm(told, shut);
        calm_goes_on(old(machine)@, told, shut);
        calm_goes_on(old(machine)@, shut, machine@);
    }
}

/// A fault as the supervisor's channel carries it.
#[derive(Clone, Copy, Debug, PartialEq, Eq, Structural)]
pub struct FaultReport {
    /// Identity of the domain.
    pub domain_id: u64,
    /// Identity of the thread.
    pub thread_id: u64,
    /// Generation of the domain.
    pub generation: u64,
    /// Exception vector.
    pub vector: u64,
    /// Error code.
    pub error_code: u64,
    /// Instruction.
    pub rip: u64,
    /// Stack pointer.
    pub rsp: u64,
    /// Faulting address.
    pub address: u64,
    /// Class of the fault.
    pub class: u32,
}

/// Bytes of a fault report.
pub const FAULT_REPORT_LEN: u32 = 72;

impl FaultReport {
    /// The bytes of a report: its words in order, little-endian, and the class in
    /// the low half of the last.
    pub open spec fn bytes(self) -> Seq<u8> {
        le_bytes(self.domain_id as nat, 8) + le_bytes(self.thread_id as nat, 8) + le_bytes(
            self.generation as nat,
            8,
        ) + le_bytes(self.vector as nat, 8) + le_bytes(self.error_code as nat, 8) + le_bytes(
            self.rip as nat,
            8,
        ) + le_bytes(self.rsp as nat, 8) + le_bytes(self.address as nat, 8) + le_bytes(
            self.class as nat,
            8,
        )
    }

    /// The payload a report is sent as.
    pub open spec fn payload(self) -> Seq<u8> {
        self.bytes() + Seq::new((MAX_INLINE_PAYLOAD - FAULT_REPORT_LEN) as nat, |i: int| 0u8)
    }

    /// Writes a report as a payload.
    pub fn write(&self) -> (payload: [u8; MAX_INLINE_PAYLOAD])
        ensures
            payload@ == self.payload(),
    {
        let mut payload: [u8; MAX_INLINE_PAYLOAD] = [0; MAX_INLINE_PAYLOAD];
        put_u64(&mut payload, 0, self.domain_id);
        put_u64(&mut payload, 8, self.thread_id);
        put_u64(&mut payload, 16, self.generation);
        put_u64(&mut payload, 24, self.vector);
        put_u64(&mut payload, 32, self.error_code);
        put_u64(&mut payload, 40, self.rip);
        put_u64(&mut payload, 48, self.rsp);
        put_u64(&mut payload, 56, self.address);
        put_u64(&mut payload, 64, self.class as u64);
        assert(payload@ =~= self.payload());
        payload
    }
}

impl MachineModel {
    /// The report of a fault.
    pub open spec fn fault_report(self, domain: int, t: int, record: FaultRecord) -> FaultReport {
        FaultReport {
            domain_id: self.domains[domain].id,
            thread_id: self.threads[t].id,
            generation: self.domains[domain].generation as u64,
            vector: record.vector,
            error_code: record.error_code,
            rip: record.rip,
            rsp: record.rsp,
            address: record.cr2,
            class: 1,
        }
    }

    /// The message a fault is reported in.
    pub open spec fn fault_message(self, domain: int, t: int, record: FaultRecord) -> SendRequest {
        SendRequest {
            payload_len: FAULT_REPORT_LEN,
            cap_count: 0,
            caps: array_of(seq![0u64, 0, 0, 0]),
            cap_ops: array_of(seq![0u32, 0, 0, 0]),
            payload: array_of(self.fault_report(domain, t, record).payload()),
        }
    }

    /// Under whose authority a fault is reported.
    pub open spec fn fault_ctx(self, domain: int, t: int, now: u64) -> Ctx {
        let d = self.domains[domain];
        Ctx {
            domain: domain as usize,
            thread: t as usize,
            handle: 0,
            operation: crate::abi::op::ENDPOINT_SEND,
            flags: 0,
            deadline: 0,
            now,
            cap: Resolved {
                slot: 0,
                object: d.fault_endpoint->0,
                grant: d.fault_grant,
                rights: right::ENDPOINT_SEND,
                facet: d.fault_facet,
            },
        }
    }

    /// A fault of the domain can be reported.
    pub open spec fn can_report(self, domain: int, t: int, record: FaultRecord, now: u64) -> bool {
        &&& self.domains[domain].fault_endpoint matches Some(o) && self.alive(o)
        &&& self.domains[domain].fault_grant != NO_GRANT
        &&& self.admission_fault(
            self.fault_ctx(domain, t, now),
            self.fault_message(domain, t, record),
            message_kind::FAULT,
        ) is None
    }
}

/// Reports a fault to the supervisor channel installed before activation.
///
/// The report is bounded and uses the cell reserved when the channel was
/// installed: a supervisor whose queue is full of ordinary traffic still hears
/// that one of its domains died.
pub fn deliver_fault(
    machine: &mut Machine,
    domain: usize,
    t: usize,
    record: &FaultRecord,
    now: u64,
) -> (reported: bool)
    requires
        old(machine).wf(),
        domain < MAX_DOMAINS,
        t < MAX_THREADS,
    ensures
        final(machine).wf(),
        final(machine).same_tables(*old(machine)),
        reported == old(machine)@.can_report(domain as int, t as int, *record, now),
        final(machine)@ == if reported {
            old(machine)@.admitted(
                old(machine)@.fault_ctx(domain as int, t as int, now),
                old(machine)@.fault_message(domain as int, t as int, *record),
                message_kind::FAULT,
                None,
            )
        } else {
            old(machine)@
        },
{
    let d = machine.domain(domain);
    let object = match d.fault_endpoint {
        None => {
            return false;
        },
        Some(object) => object,
    };
    if d.fault_grant == NO_GRANT || !object_alive(machine, object) {
        return false;
    }
    let report = FaultReport {
        domain_id: d.id,
        thread_id: machine.thread(t).id,
        generation: d.generation as u64,
        vector: record.vector,
        error_code: record.error_code,
        rip: record.rip,
        rsp: record.rsp,
        address: record.cr2,
        class: 1,
    };
    let caps: [u64; MAX_MESSAGE_CAPS] = [0; MAX_MESSAGE_CAPS];
    let cap_ops: [u32; MAX_MESSAGE_CAPS] = [0; MAX_MESSAGE_CAPS];
    let payload = report.write();
    proof {
        assert(caps@ =~= seq![0u64, 0, 0, 0]);
        assert(cap_ops@ =~= seq![0u32, 0, 0, 0]);
        array_of_elements(caps);
        array_of_elements(cap_ops);
        array_of_elements(payload);
    }
    let request = SendRequest { payload_len: FAULT_REPORT_LEN, cap_count: 0, caps, cap_ops, payload };
    let ctx = Ctx {
        domain,
        thread: t,
        handle: 0,
        operation: crate::abi::op::ENDPOINT_SEND,
        flags: 0,
        deadline: 0,
        now,
        cap: Resolved {
            slot: 0,
            object,
            grant: d.fault_grant,
            rights: right::ENDPOINT_SEND,
            facet: d.fault_facet,
        },
    };
    match admit_message(machine, &ctx, &request, message_kind::FAULT, None) {
        Ok(_) => true,
        Err(_) => false,
    }
}

pub(crate) proof fn collecting_keeps_messages(m: MachineModel, g: u16, steps: nat)
    ensures
        m.collect_grant(g, steps).queues == m.queues,
        m.collect_grant(g, steps).messages == m.messages,
    decreases steps,
{
    if steps > 0 && g != NO_GRANT && m.is_idle_grant(g as int) {
        collecting_keeps_messages(
            m.free_grant(g as int),
            m.grants[g as int].parent,
            (steps - 1) as nat,
        );
    }
}

pub(crate) proof fn releasing_keeps_messages(m: MachineModel, domain: int, slot: int)
    ensures
        m.release_slot(domain, slot).queues == m.queues,
        m.release_slot(domain, slot).messages == m.messages,
{
    let entry = m.caps[cap_at(domain, slot)];
    if entry.live {
        let cut = MachineModel { caps: without_cap(m.caps, domain, slot), ..m };
        let unpaid = cut.uncharge(
            cut.domains[domain].owner_scope,
            Resource::Metadata,
            1,
        ).count_grant(entry.grant, false).count_ref(entry.object, false);
        let i = entry.object.index as int;
        let collected = match entry.object.kind {
            ObjKind::Invocation => unpaid.collect_invocation(i),
            ObjKind::Memory => if unpaid.memories[i].generation == entry.object.generation {
                unpaid.collect_memory(i, false)
            } else {
                unpaid
            },
            _ => unpaid,
        };
        assert(collected.queues == m.queues && collected.messages == m.messages);
        collecting_keeps_messages(collected, entry.grant, MAX_DERIVE_DEPTH as nat);
    }
}

proof fn taking_back_keeps_messages(m: MachineModel, receiver: int, message: Message, n: nat)
    ensures
        m.taken_back(receiver, message, n).queues == m.queues,
        m.taken_back(receiver, message, n).messages == m.messages,
    decreases n,
{
    if n > 0 {
        taking_back_keeps_messages(m, receiver, message, (n - 1) as nat);
        releasing_keeps_messages(
            m.taken_back(receiver, message, (n - 1) as nat),
            receiver,
            message.caps@[n - 1].slot as int,
        );
    }
}

proof fn discharging_keeps_messages(m: MachineModel, i: int, now: u64)
    ensures
        m.release_invocation(i, now).queues == m.queues,
        m.release_invocation(i, now).messages == m.messages,
{
    let depth = MAX_DERIVE_DEPTH as nat;
    assert forall|x: MachineModel, g: u16|
        (#[trigger] x.collect_grant(g, depth)).queues == x.queues && x.collect_grant(
            g,
            depth,
        ).messages == x.messages by {
        collecting_keeps_messages(x, g, depth);
    }
}

/// The queues hold positions of messages.
pub open spec fn queues_ok(m: MachineModel) -> bool {
    forall|e: int, i: int|
        0 <= e < m.queues.len() && 0 <= i < m.queues[e].len() ==> #[trigger] m.queues[e][i]
            < m.messages.len()
}

/// A report of a fault waits in a queue.
pub open spec fn report_waits(m: MachineModel, e: int, k: u16) -> bool {
    &&& 0 <= e < m.queues.len()
    &&& k < m.messages.len()
    &&& m.queues[e].contains(k)
    &&& m.messages[k as int].kind == message_kind::FAULT
    &&& queues_ok(m)
}

proof fn unlinking_keeps_the_others(queue: Seq<u16>, other: u16, k: u16)
    ensures
        queue.contains(k) && other != k ==> crate::tables::unlinked(queue, other).contains(k),
        forall|i: int|
            0 <= i < crate::tables::unlinked(queue, other).len() ==> queue.contains(
                #[trigger] crate::tables::unlinked(queue, other)[i],
            ),
{
    let left = crate::tables::unlinked(queue, other);
    if queue.contains(other) {
        queue.index_of_first_ensures(other);
        let at = queue.index_of_first(other)->0;
        assert forall|i: int| 0 <= i < left.len() implies queue.contains(#[trigger] left[i]) by {
            assert(left[i] == queue[if i < at {
                i
            } else {
                i + 1
            }]);
        }
        if queue.contains(k) && other != k {
            let j = choose|j: int| 0 <= j < queue.len() && queue[j] == k;
            assert(left[if j < at {
                j
            } else {
                j - 1
            }] == k);
        }
    }
}

proof fn withdrawing_keeps_reports(
    m: MachineModel,
    at: int,
    queue: Seq<u16>,
    domain: int,
    generation: u32,
    now: u64,
    n: nat,
    e: int,
    k: u16,
)
    requires
        report_waits(m, e, k),
        0 <= at < m.queues.len(),
        n <= queue.len(),
        forall|i: int| 0 <= i < queue.len() ==> #[trigger] queue[i] < m.messages.len(),
    ensures
        ({
            let after = m.orphans_of(at, queue, domain, generation, now, n);
            &&& report_waits(after, e, k)
            &&& after.messages[k as int] == m.messages[k as int]
            &&& after.queues.len() == m.queues.len()
            &&& after.messages.len() == m.messages.len()
        }),
    decreases n,
{
    if n > 0 {
        withdrawing_keeps_reports(
            m,
            at,
            queue,
            domain,
            generation,
            now,
            (n - 1) as nat,
            e,
            k,
        );
        let before = m.orphans_of(at, queue, domain, generation, now, (n - 1) as nat);
        let other = queue[n - 1];
        let i = before.messages[other as int].invocation as int;
        if before.is_sent_by(i, domain, generation) && before.messages[other as int].kind
            != message_kind::FAULT {
            let message = before.messages[other as int];
            let cut = before.with_queue(
                at,
                crate::tables::unlinked(before.queues[at], other),
            ).with_endpoint(
                at,
                Endpoint {
                    queued: one_less(before.endpoints[at].queued),
                    reserved_used: if message.reserved_cell {
                        one_less(before.endpoints[at].reserved_used)
                    } else {
                        before.endpoints[at].reserved_used
                    },
                    ..before.endpoints[at]
                },
            );
            let receiver = before.endpoints[at].receiver_domain;
            taking_back_keeps_messages(
                cut,
                receiver as int,
                message,
                message.cap_count as nat,
            );
            let gone = before.unqueued(at, other as int).origin_gone(i, Cancel::OriginDead);
            assert(gone.queues == cut.queues);
            assert(gone.messages == before.messages.update(other as int, Message::empty_spec()));
            discharging_keeps_messages(gone, i, now);
            unlinking_keeps_the_others(before.queues[at], other, k);
            let after = m.orphans_of(at, queue, domain, generation, now, n);
            assert(after == gone.release_invocation(i, now));
            assert forall|x: int, y: int|
                0 <= x < after.queues.len() && 0 <= y < after.queues[x].len() implies
                #[trigger] after.queues[x][y] < after.messages.len() by {
                if x == at {
                    let value = after.queues[x][y];
                    assert(before.queues[at].contains(value));
                    let j = choose|j: int|
                        0 <= j < before.queues[at].len() && before.queues[at][j] == value;
                    assert(before.queues[at][j] < before.messages.len());
                } else {
                    assert(after.queues[x] == before.queues[x]);
                    assert(before.queues[x][y] < before.messages.len());
                }
            }
        }
    }
}

/// The report of the fault that ended a domain stays where its supervisor reads
/// it: cleaning up after the domain withdraws what the domain sent, not the
/// report.
pub proof fn fault_report_outlives_its_domain(
    m: MachineModel,
    domain: int,
    generation: u32,
    now: u64,
    n: nat,
    e: int,
    k: u16,
)
    requires
        report_waits(m, e, k),
        n <= m.queues.len(),
    ensures
        ({
            let after = m.orphans_withdrawn(domain, generation, now, n);
            &&& report_waits(after, e, k)
            &&& after.messages[k as int] == m.messages[k as int]
            &&& after.queues.len() == m.queues.len()
            &&& after.messages.len() == m.messages.len()
        }),
    decreases n,
{
    if n > 0 {
        fault_report_outlives_its_domain(
            m,
            domain,
            generation,
            now,
            (n - 1) as nat,
            e,
            k,
        );
        let before = m.orphans_withdrawn(domain, generation, now, (n - 1) as nat);
        let at = n - 1;
        if before.endpoints[at].used {
            let queue = before.queues[at];
            assert forall|i: int| 0 <= i < queue.len() implies #[trigger] queue[i]
                < before.messages.len() by {
                assert(before.queues[at][i] < before.messages.len());
            }
            withdrawing_keeps_reports(
                before,
                at,
                queue,
                domain,
                generation,
                now,
                queue.len(),
                e,
                k,
            );
        }
    }
}

} // verus!
