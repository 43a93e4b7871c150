//! Operations by name: what a program that asks for one is given.

use vstd::prelude::*;

use crate::abi::status::Status;
use crate::abi::{object_type, right};
use crate::api::capops::any_ctx_ok;
use crate::api::dispatch::{performed, Answer, Host, Request};
use crate::api::{ctx_ok, Ctx};
use crate::laws::authority::{a_fence_reaches_descendants_only, above, names_entry};
use crate::laws::events::raising_coalesces;
use crate::laws::how_many;
use crate::laws::memory::a_mapping_shows_the_object_from_its_offset;
use crate::limits::MAX_GRANTS;
use crate::obj::{CapEntry, Grant, ObjKind};
use crate::page_table::{target, NO_EXECUTE, USER, WRITABLE};
use crate::spaces::USER_END;
use crate::state::Machine;

verus! {

/// A raise leaves every bit pending that was, and adds every bit raised and no other.
/// It is answered with the sequence the signal then has. A raise of nothing is refused
/// and changes nothing.
#[verifier::rlimit(40)]
pub proof fn a_raise_adds_its_bits(
    before: Machine,
    after: Machine,
    ctx: Ctx,
    bits: u64,
    host: Host,
    answer: Answer,
)
    requires
        before.wf(),
        ctx_ok(ctx, ObjKind::Signal),
        before@.signals[ctx.cap.object.index as int].used,
        performed(before, after, ctx, Request::SignalRaise(bits), host, answer),
    ensures
        bits == 0 ==> after@ == before@ && answer.result == Err::<u64, Status>(
            Status::InvalidArgument,
        ),
        bits != 0 ==> {
            let was = before@.signals[ctx.cap.object.index as int];
            let is = after@.signals[ctx.cap.object.index as int];
            &&& is.bits & was.bits == was.bits
            &&& is.bits & bits == bits
            &&& is.bits & !(was.bits | bits) == 0
            &&& is.sequence != was.sequence
            &&& answer.result == Ok::<u64, Status>(is.sequence)
        },
{
    before.wf_sized();
    raising_coalesces(before@, ctx.cap.object.index as int, bits);
}

/// A fence changes no grant that does not descend from the one it names, leaves every
/// handle where it is, and is answered with how many grants it fenced.
#[verifier::rlimit(40)]
pub proof fn a_fence_stays_below_its_grant(
    before: Machine,
    after: Machine,
    ctx: Ctx,
    host: Host,
    answer: Answer,
    g: u16,
)
    requires
        before.wf(),
        before@.wf(),
        any_ctx_ok(ctx),
        g < MAX_GRANTS,
        performed(before, after, ctx, Request::CapFence, host, answer),
    ensures
        ({
            let was = before@.grants[g as int];
            let is = after@.grants[g as int];
            &&& after@.caps == before@.caps
            &&& is == was || is == (Grant { fenced: true, ..was })
            &&& (forall|n: nat| #[trigger] above(before@.grants, g, n) != ctx.cap.grant) ==> is
                == was
            &&& answer.result == Ok::<u64, Status>(
                how_many(
                    |k: int| after@.grants[k].fenced && !before@.grants[k].fenced,
                    MAX_GRANTS as int,
                ) as u64,
            )
        }),
{
    a_fence_reaches_descendants_only(before@, ctx, g);
}

/// A mapping that is answered shows the object from the page its request names, page
/// after page, with the rights its request names; no other address of the domain
/// changes. It is answered with the number of pages.
#[verifier::rlimit(40)]
pub proof fn a_map_shows_what_it_names(
    before: Machine,
    after: Machine,
    ctx: Ctx,
    request: crate::abi::request::MapRequest,
    host: Host,
    answer: Answer,
    w: u64,
)
    requires
        before.wf(),
        before@.wf(),
        ctx_ok(ctx, ObjKind::Domain),
        before@.domains[ctx.cap.object.index as int].space is Some,
        w < USER_END,
        performed(before, after, ctx, Request::DomainMap(request), host, answer),
        answer.result is Ok,
    ensures
        answer.result == Ok::<u64, Status>(request.page_count as u64),
        exists|entry: CapEntry|
            {
                let d = ctx.cap.object.index as int;
                let object = before@.memories[entry.object.index as int];
                let p = (w - request.vaddr) / 0x1000;
                &&& #[trigger] names_entry(
                    before@,
                    ctx.domain as int,
                    request.memory_handle,
                    object_type::MEMORY,
                    right::MEMORY_MAP,
                    ctx.now,
                    entry,
                )
                &&& if request.vaddr <= w < request.vaddr + request.page_count * 0x1000 {
                    after@.translated(d, w) matches Some(e) && {
                        &&& target(e) == (object.base.number + request.offset_pages + p) * 0x1000
                        &&& e & USER != 0
                        &&& (e & WRITABLE != 0) == (request.rights & right::MEMORY_WRITE != 0)
                        &&& (e & NO_EXECUTE == 0) == (request.rights & right::MEMORY_EXECUTE != 0)
                    }
                } else {
                    after@.translated(d, w) == before@.translated(d, w)
                }
            },
{
    a_mapping_shows_the_object_from_its_offset(before@, ctx, request, w);
    let entry = choose|entry: CapEntry|
        {
            let d = ctx.cap.object.index as int;
            let o = entry.object.index as int;
            let made = before@.map_made(ctx, request);
            let p = (w - request.vaddr) / 0x1000;
            &&& #[trigger] names_entry(
                before@,
                ctx.domain as int,
                request.memory_handle,
                object_type::MEMORY,
                right::MEMORY_MAP,
                ctx.now,
                entry,
            )
            &&& if request.vaddr <= w < request.vaddr + request.page_count * 0x1000 {
                made.translated(d, w) matches Some(e) && {
                    &&& target(e) == (before@.memories[o].base.number + request.offset_pages + p)
                        * 0x1000
                    &&& e & USER != 0
                    &&& (e & WRITABLE != 0) == (request.rights & right::MEMORY_WRITE != 0)
                    &&& (e & NO_EXECUTE == 0) == (request.rights & right::MEMORY_EXECUTE != 0)
                }
            } else {
                made.translated(d, w) == before@.translated(d, w)
            }
        };
    assert(after@.translated(ctx.cap.object.index as int, w) == before@.map_made(
        ctx,
        request,
    ).translated(ctx.cap.object.index as int, w));
    assert(names_entry(
        before@,
        ctx.domain as int,
        request.memory_handle,
        object_type::MEMORY,
        right::MEMORY_MAP,
        ctx.now,
        entry,
    ));
}

} // verus!
