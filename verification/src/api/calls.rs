//! The two operations on an endpoint that can wait, as the steps between which
//! the calling thread sleeps.

use vstd::prelude::*;

use crate::abi::request::{CallResult, ReceiveResult, SendRequest};
use crate::abi::status::Status;
use crate::abi::{flag, message_kind, object_type, right};
use crate::api::ipcops::{admit_message, deliver, Admitted};
use crate::api::obligations::{outcome_status, release_invocation, status_of};
use crate::api::{resolve, Ctx, Resolved};
use crate::bytes::{array_of, array_of_elements};
use crate::ipc::{Endpoint, Invocation, State, NO_DOMAIN};
use crate::limits::{MAX_DOMAINS, MAX_INVOCATIONS, MAX_THREADS};
use crate::obj::ObjKind;
use crate::state::{Machine, MachineModel, Wait};
use crate::thread::prepare_wait;

verus! {

/// The positions of a caller lie in their tables.
pub open spec fn caller_ok(ctx: Ctx) -> bool {
    ctx.domain < MAX_DOMAINS && ctx.thread < MAX_THREADS
}

impl MachineModel {
    /// The capability a call or a receive goes through, or why it is refused.
    pub open spec fn endpoint_cap(self, ctx: Ctx, rights: u32, now: u64) -> Result<
        Resolved,
        Status,
    > {
        self.resolved(ctx.domain as int, ctx.handle, object_type::ENDPOINT, rights, now)
    }

    /// Why a call is refused, or nothing when the caller goes to sleep.
    pub open spec fn call_fault(self, ctx: Ctx, request: SendRequest) -> Option<Status> {
        if ctx.flags & flag::NONBLOCKING != 0 {
            Some(Status::InvalidArgument)
        } else {
            match self.endpoint_cap(ctx, right::ENDPOINT_SEND, ctx.now) {
                Err(code) => Some(code),
                Ok(cap) => self.admission_fault(
                    Ctx { cap, ..ctx },
                    request,
                    message_kind::REQUEST,
                ),
            }
        }
    }

    /// The machine once a caller sleeps until its reply.
    pub open spec fn call_begun(self, ctx: Ctx, request: SendRequest) -> MachineModel {
        let cap = self.endpoint_cap(ctx, right::ENDPOINT_SEND, ctx.now)->Ok_0;
        let full = Ctx { cap, ..ctx };
        let admission = self.admission(full, request, message_kind::REQUEST);
        self.admitted(
            full,
            request,
            message_kind::REQUEST,
            Some(ctx.thread as u16),
        ).wait_begun(
            ctx.thread as int,
            Wait::Reply(admission.invocation, admission.generation),
            ctx.deadline,
        )
    }

    /// The reply an invocation holds.
    pub open spec fn reply_of(self, i: int) -> CallResult {
        let invocation = self.invocations[i];
        CallResult {
            payload_len: invocation.reply_len,
            cap_count: invocation.reply_cap_count,
            caps: invocation.reply_caps,
            result: invocation.reply_result,
            invocation_id: invocation.id,
            payload: invocation.reply_payload,
        }
    }

    /// The machine once an invocation has no waiter any more.
    pub open spec fn unwaited(self, i: int) -> MachineModel {
        self.with_invocation(i, Invocation { waiter: None, ..self.invocations[i] })
    }

    /// The machine once a domain receives on an endpoint nobody received on.
    pub open spec fn receiver_claimed(self, domain: int, e: int) -> MachineModel {
        if self.endpoints[e].receiver_domain == NO_DOMAIN {
            self.with_endpoint(
                e,
                Endpoint {
                    receiver_domain: domain as u16,
                    receiver_generation: self.domains[domain].generation,
                    ..self.endpoints[e]
                },
            )
        } else {
            self
        }
    }

    /// The machine once a thread sleeps until a message arrives.
    pub open spec fn receive_begun(self, ctx: Ctx, e: int) -> MachineModel {
        let t = ctx.thread as int;
        let waiting = self.wait_begun(
            t,
            Wait::Receive(e as u16, self.endpoints[e].generation),
            ctx.deadline,
        );
        waiting.with_endpoint(
            e,
            Endpoint {
                receivers: array_of(waiting.endpoints[e].receivers@.update(t, true)),
                ..waiting.endpoints[e]
            },
        )
    }
}

/// Admits a message whose sender sleeps until its one-shot reply.
pub fn begin_call(machine: &mut Machine, ctx: &Ctx, request: &SendRequest) -> (result: Result<
    Admitted,
    Status,
>)
    requires
        old(machine).wf(),
        caller_ok(*ctx),
    ensures
        final(machine).wf(),
        final(machine).same_tables(*old(machine)),
        match old(machine)@.call_fault(*ctx, *request) {
            Some(code) => {
                &&& result == Err::<Admitted, Status>(code)
                &&& final(machine)@ == old(machine)@
            },
            None => {
                let cap = old(machine)@.endpoint_cap(*ctx, right::ENDPOINT_SEND, ctx.now)->Ok_0;
                &&& final(machine)@ == old(machine)@.call_begun(*ctx, *request)
                &&& result == Ok::<Admitted, Status>(
                    old(machine)@.admission(
                        Ctx { cap, ..*ctx },
                        *request,
                        message_kind::REQUEST,
                    ),
                )
            },
        },
{
    if ctx.flags & flag::NONBLOCKING != 0 {
        return Err(Status::InvalidArgument);
    }
    let cap = match resolve(
        machine,
        ctx.domain,
        ctx.handle,
        object_type::ENDPOINT,
        right::ENDPOINT_SEND,
        ctx.now,
    ) {
        Err(code) => {
            return Err(code);
        },
        Ok(cap) => cap,
    };
    proof {
        names_an_endpoint(machine@, *ctx, right::ENDPOINT_SEND, ctx.now);
    }
    let full = Ctx { cap, ..*ctx };
    match admit_message(
        machine,
        &full,
        request,
        message_kind::REQUEST,
        Some(ctx.thread as u16),
    ) {
        Err(code) => Err(code),
        Ok(admitted) => {
            prepare_wait(
                machine,
                ctx.thread,
                Wait::Reply(admitted.invocation, admitted.generation),
                ctx.deadline,
            );
            Ok(admitted)
        },
    }
}

/// What resolves as an endpoint names one.
proof fn names_an_endpoint(m: MachineModel, ctx: Ctx, rights: u32, now: u64)
    ensures
        m.endpoint_cap(ctx, rights, now) matches Ok(cap) ==> cap.object.kind == ObjKind::Endpoint,
{
}

/// How a call ended: the identity of the invocation, and the reply if there is
/// one.
#[derive(Clone, Copy, Debug)]
pub struct Ended {
    /// Identity of the invocation.
    pub id: u64,
    /// The reply.
    pub reply: Option<CallResult>,
}

/// Collects what a call's wait ended with; `woken` says how the wait itself
/// ended.
///
/// A wait that ended without a result leaves the invocation admitted: a timeout
/// is not a proof of absence.
pub fn end_call(
    machine: &mut Machine,
    invocation: u16,
    generation: u32,
    woken: Status,
    now: u64,
) -> (result: Result<Ended, Status>)
    requires
        old(machine).wf(),
        invocation < MAX_INVOCATIONS,
    ensures
        final(machine).wf(),
        final(machine).same_tables(*old(machine)),
        ({
            let m = old(machine)@;
            let i = invocation as int;
            let record = m.invocations[i];
            if record.generation != generation {
                &&& result == Err::<Ended, Status>(Status::PeerDead)
                &&& final(machine)@ == m
            } else if record.replied {
                &&& result == Ok::<Ended, Status>(
                    Ended { id: record.id, reply: Some(m.reply_of(i)) },
                )
                &&& final(machine)@ == m.release_invocation(i, now)
            } else if record.state == State::Resolved {
                &&& result == if outcome_status(record.outcome) == Status::Success {
                    Ok::<Ended, Status>(Ended { id: record.id, reply: None })
                } else {
                    Err::<Ended, Status>(outcome_status(record.outcome))
                }
                &&& final(machine)@ == m.release_invocation(i, now)
            } else {
                &&& result == Err::<Ended, Status>(
                    if woken == Status::Success {
                        Status::TimedOut
                    } else {
                        woken
                    },
                )
                &&& final(machine)@ == m.unwaited(i)
            }
        }),
{
    let i: usize = invocation as usize;
    let record = machine.invocation(i);
    if record.generation != generation {
        return Err(Status::PeerDead);
    }
    if record.replied {
        let reply = CallResult {
            payload_len: record.reply_len,
            cap_count: record.reply_cap_count,
            caps: record.reply_caps,
            result: record.reply_result,
            invocation_id: record.id,
            payload: record.reply_payload,
        };
        release_invocation(machine, i, now);
        return Ok(Ended { id: record.id, reply: Some(reply) });
    }
    if record.state == State::Resolved {
        let code = status_of(record.outcome);
        release_invocation(machine, i, now);
        if code == Status::Success {
            return Ok(Ended { id: record.id, reply: None });
        }
        return Err(code);
    }
    machine.set_invocation(i, Invocation { waiter: None, ..record });
    Err(
        if woken == Status::Success {
            Status::TimedOut
        } else {
            woken
        },
    )
}

/// What one attempt to receive came to.
#[derive(Clone, Copy, Debug)]
pub enum Received {
    /// A message, with the ticket for its invocation.
    Message(u64, ReceiveResult),
    /// The thread sleeps until one arrives.
    Asleep,
}

impl MachineModel {
    /// What one attempt to receive comes to.
    pub open spec fn reception(self, ctx: Ctx, now: u64) -> (MachineModel, Result<
        Received,
        Status,
    >) {
        match self.endpoint_cap(ctx, right::ENDPOINT_RECEIVE, now) {
            Err(code) => (self, Err(code)),
            Ok(cap) => {
                let e = cap.object.index as int;
                let d = ctx.domain as int;
                let claimed = self.receiver_claimed(d, e);
                if self.endpoints[e].receiver_domain != NO_DOMAIN
                    && self.endpoints[e].receiver_domain != ctx.domain {
                    (self, Err(Status::StateConflict))
                } else if self.queues[e].len() > 0 {
                    let k = self.queues[e][0] as int;
                    match claimed.delivery_fault(d, e, k) {
                        Some(code) => (claimed, Err(code)),
                        None => (
                            claimed.delivered_to(d, e, k),
                            Ok(
                                Received::Message(
                                    claimed.minted_handle(d),
                                    claimed.ticketed(d, k).delivery(k),
                                ),
                            ),
                        ),
                    }
                } else if ctx.flags & flag::NONBLOCKING != 0 {
                    (claimed, Err(Status::WouldBlock))
                } else {
                    (claimed.receive_begun(ctx, e), Ok(Received::Asleep))
                }
            },
        }
    }
}

/// Takes the oldest admitted message with its authenticated header, or puts the
/// thread to sleep until there is one.
///
/// An endpoint has exactly one receiver. A domain that receives on one that has
/// none claims it; an endpoint another domain receives on is refused.
pub fn receive(machine: &mut Machine, ctx: &Ctx, now: u64) -> (result: Result<Received, Status>)
    requires
        old(machine).wf(),
        caller_ok(*ctx),
    ensures
        final(machine).wf(),
        final(machine).same_tables(*old(machine)),
        (final(machine)@, result) == old(machine)@.reception(*ctx, now),
{
    let cap = match resolve(
        machine,
        ctx.domain,
        ctx.handle,
        object_type::ENDPOINT,
        right::ENDPOINT_RECEIVE,
        now,
    ) {
        Err(code) => {
            return Err(code);
        },
        Ok(cap) => cap,
    };
    proof {
        names_an_endpoint(machine@, *ctx, right::ENDPOINT_RECEIVE, now);
        machine.wf_sized();
    }
    let e: usize = cap.object.index as usize;
    let endpoint = machine.endpoint(e);
    if endpoint.receiver_domain == NO_DOMAIN {
        let generation: u32 = machine.domain(ctx.domain).generation;
        machine.set_endpoint(
            e,
            Endpoint {
                receiver_domain: ctx.domain as u16,
                receiver_generation: generation,
                ..endpoint
            },
        );
    } else if endpoint.receiver_domain as usize != ctx.domain {
        return Err(Status::StateConflict);
    }
    match machine.queue_front(e) {
        Some(k) => {
            return match deliver(machine, ctx.domain, e, k as usize) {
                Ok((ticket, message)) => Ok(Received::Message(ticket, message)),
                Err(code) => Err(code),
            };
        },
        None => {},
    }
    if ctx.flags & flag::NONBLOCKING != 0 {
        return Err(Status::WouldBlock);
    }
    prepare_wait(
        machine,
        ctx.thread,
        Wait::Receive(e as u16, endpoint.generation),
        ctx.deadline,
    );
    let endpoint = machine.endpoint(e);
    let mut receivers = endpoint.receivers;
    receivers[ctx.thread] = true;
    proof {
        array_of_elements(receivers);
    }
    machine.set_endpoint(e, Endpoint { receivers, ..endpoint });
    Ok(Received::Asleep)
}

} // verus!
