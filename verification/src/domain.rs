//! Domain construction, activation, termination and reclamation.
//!
//! A domain leaves `Building` exactly once, and only after its address space,
//! every loadable segment, a stack with a guard page below it, a kernel stack
//! and a thread all exist. Any failure on the way there tears the partial domain
//! down instead of leaving it visible.
//!
//! Reclamation is split from termination: marking a domain stopped is
//! immediate, while its page tables and frames go back later, when no processor
//! stands on its stacks or runs in its address space any more.

use vstd::prelude::*;

use crate::abi::message_kind;
use crate::api::cap_release_slot;
use crate::api::closing::{deliver_fault, on_domain_death};
use crate::api::memops::{dropping_frees_one, withdraw_map};
use crate::api::scopeops::release_slot_touches_one;
use crate::arch::x86_64::paging::{
    data_kept, data_kept_on, is_root, leaf_bits, leaf_bits_say_the_rights, mapped_frame_comes_back,
    translations_kept, walk, MapError,
};
use crate::bytes::{array_of, array_of_elements};
use crate::ctrl::one_more;
use crate::elf::{self, Reject};
use crate::kstack::{
    in_stack, stack_entry_ok, stack_page, stack_pages_are_apart, stack_pages_are_dynamic, stack_top,
};
use crate::layout::{
    kstack_slot_base, KSTACK_PAGES, KSTACK_SLOT_BYTES, USER_STACK_PAGES,
    USER_STACK_TOP,
};
use crate::limits::{
    MAX_CAPS, MAX_CPUS, MAX_DOMAINS, MAX_MAPS, MAX_SCOPES, MAX_THREADS, MAX_THREADS_PER_DOMAIN,
};
use crate::mm::{
    count_use, is_zero, quarantine_moved, Frame, FrameAllocator, FrameUse, Owner, Rights,
    PHYSICAL_FRAMES,
};
use crate::obj::cap_at;
use crate::page_table::{same_page, target};
use crate::scope::{
    self, has_slot, minus, parallelised, release_undoes_reserve, room_is_separate, Resource, Scope,
};
use crate::spaces::{
    frames_took, kernel_data, low_pages_are_numbered, owns_no_table, page_at, page_given_back,
    pages_given_back, space_retired, without_space,
};
use crate::state::{
    calm_goes_on, ends_alike, is_calm, untouched_is_calm, Domain, DomainState, ExitReason,
    FaultRecord, Machine, MachineModel, Thread, ThreadState, Wait,
};

verus! {

/// Why a domain could not be created.
#[derive(Clone, Copy, PartialEq, Eq, Debug, Structural)]
pub enum CreateError {
    /// The domain table is full.
    DomainTableFull,
    /// The thread table is full.
    ThreadTableFull,
    /// No kernel stack slot is free.
    KernelStackExhausted,
    /// The image did not validate.
    Image(Reject),
    /// A mapping was refused.
    Mapping(MapError),
    /// A frame or table could not be allocated.
    OutOfMemory,
    /// A reservation did not fit in the owning scope or one of its ancestors.
    LimitExhausted,
    /// The owning scope is not open.
    ScopeClosed,
}

impl CreateError {
    /// The name [`CreateError::name`] returns.
    pub open spec fn name_spec(self) -> Seq<char> {
        match self {
            CreateError::DomainTableFull => "domain_table_full"@,
            CreateError::ThreadTableFull => "thread_table_full"@,
            CreateError::KernelStackExhausted => "kernel_stack_exhausted"@,
            CreateError::Image(reject) => reject.name_spec(),
            CreateError::Mapping(error) => error.name_spec(),
            CreateError::OutOfMemory => "out_of_memory"@,
            CreateError::LimitExhausted => "limit_exhausted"@,
            CreateError::ScopeClosed => "scope_closed"@,
        }
    }

    /// Short name used in diagnostic records.
    pub fn name(self) -> (text: &'static str)
        ensures
            text@ == self.name_spec(),
    {
        match self {
            CreateError::DomainTableFull => "domain_table_full",
            CreateError::ThreadTableFull => "thread_table_full",
            CreateError::KernelStackExhausted => "kernel_stack_exhausted",
            CreateError::Image(reject) => reject.name(),
            CreateError::Mapping(error) => error.name(),
            CreateError::OutOfMemory => "out_of_memory",
            CreateError::LimitExhausted => "limit_exhausted",
            CreateError::ScopeClosed => "scope_closed",
        }
    }
}

/// A refused mapping as a reason for a refused domain.
pub open spec fn refused_by(error: MapError) -> CreateError {
    match error {
        MapError::OutOfMemory => CreateError::OutOfMemory,
        other => CreateError::Mapping(other),
    }
}

impl From<MapError> for CreateError {
    fn from(error: MapError) -> (made: CreateError) {
        match error {
            MapError::OutOfMemory => CreateError::OutOfMemory,
            other => CreateError::Mapping(other),
        }
    }
}

impl vstd::std_specs::convert::FromSpecImpl<MapError> for CreateError {
    open spec fn obeys_from_spec() -> bool {
        true
    }

    open spec fn from_spec(error: MapError) -> CreateError {
        refused_by(error)
    }
}

/// Why activation was refused.
#[derive(Clone, Copy, PartialEq, Eq, Debug, Structural)]
pub enum ActivationRefusal {
    /// The domain is not under construction.
    NotBuilding,
    /// No address space.
    NoAddressSpace,
    /// No loadable segment was mapped.
    NoSegments,
    /// The initial stack is not mapped.
    NoStack,
    /// No thread exists.
    NoThread,
    /// The entry point is not mapped executable in the domain.
    EntryNotExecutable,
    /// No supervisor channel is installed to report a fault on.
    NoFaultChannel,
    /// The scope that pays for the domain is not open.
    ScopeClosed,
}

impl ActivationRefusal {
    /// The name [`ActivationRefusal::name`] returns.
    pub open spec fn name_spec(self) -> Seq<char> {
        match self {
            ActivationRefusal::NotBuilding => "not_building"@,
            ActivationRefusal::NoAddressSpace => "no_address_space"@,
            ActivationRefusal::NoSegments => "no_segments"@,
            ActivationRefusal::NoStack => "no_stack"@,
            ActivationRefusal::NoThread => "no_thread"@,
            ActivationRefusal::EntryNotExecutable => "entry_not_executable"@,
            ActivationRefusal::NoFaultChannel => "no_fault_channel"@,
            ActivationRefusal::ScopeClosed => "scope_closed"@,
        }
    }

    /// Short name used in diagnostic records.
    pub fn name(self) -> (text: &'static str)
        ensures
            text@ == self.name_spec(),
    {
        match self {
            ActivationRefusal::NotBuilding => "not_building",
            ActivationRefusal::NoAddressSpace => "no_address_space",
            ActivationRefusal::NoSegments => "no_segments",
            ActivationRefusal::NoStack => "no_stack",
            ActivationRefusal::NoThread => "no_thread",
            ActivationRefusal::EntryNotExecutable => "entry_not_executable",
            ActivationRefusal::NoFaultChannel => "no_fault_channel",
            ActivationRefusal::ScopeClosed => "scope_closed",
        }
    }
}

/// The first kernel stack slot from `from` on that is free, or [`MAX_THREADS`].
pub open spec fn first_kstack(kstacks: Seq<bool>, from: int) -> int
    decreases MAX_THREADS - from,
{
    if from >= MAX_THREADS {
        MAX_THREADS as int
    } else if !kstacks[from] {
        from
    } else {
        first_kstack(kstacks, from + 1)
    }
}

/// The kernel's translations of a stack's first `n` pages are there.
pub open spec fn stack_is_mapped(machine: Machine, slot: int, n: int) -> bool {
    forall|page: int|
        0 <= page < n ==> stack_entry_ok(
            machine.kernel_walk(#[trigger] stack_page(slot, page)),
            true,
        )
}

/// Frames either keep their use, or were free and went to the kernel, or were
/// held by the kernel and went into quarantine.
pub open spec fn kernel_moved(before: Seq<FrameUse>, after: Seq<FrameUse>) -> bool {
    &&& after.len() == before.len()
    &&& forall|i: int|
        0 <= i < before.len() ==> {
            ||| #[trigger] after[i] == before[i]
            ||| before[i] == FrameUse::Free && (after[i] == FrameUse::Table(Owner::Kernel)
                || after[i] == FrameUse::Held(Owner::Kernel) || after[i] == FrameUse::Retired(
                Owner::Kernel,
            ))
            ||| before[i] == FrameUse::Held(Owner::Kernel) && after[i] == FrameUse::Retired(
                Owner::Kernel,
            )
        }
}

/// Frames either keep their use, or were free and went to the kernel.
pub open spec fn kernel_took(before: Seq<FrameUse>, after: Seq<FrameUse>) -> bool {
    &&& after.len() == before.len()
    &&& forall|i: int|
        0 <= i < before.len() ==> {
            ||| #[trigger] after[i] == before[i]
            ||| before[i] == FrameUse::Free && (after[i] == FrameUse::Table(Owner::Kernel)
                || after[i] == FrameUse::Held(Owner::Kernel) || after[i] == FrameUse::Retired(
                Owner::Kernel,
            ))
        }
}

/// The frame behind a page of a kernel stack.
pub open spec fn stack_frame(machine: Machine, slot: int, page: int) -> int {
    target((machine.kernel_walk(stack_page(slot, page))->0).1) as int / 0x1000
}

/// The frames behind a stack's first `n` pages were free before, are held by the
/// kernel, and are one for each page.
#[verifier::opaque]
pub open spec fn stack_is_fresh(
    before: Seq<FrameUse>,
    machine: Machine,
    slot: int,
    n: int,
) -> bool {
    &&& forall|page: int|
        0 <= page < n ==> {
            let f = #[trigger] stack_frame(machine, slot, page);
            &&& 0 <= f < before.len()
            &&& before[f] == FrameUse::Free
            &&& machine@.uses[f] == FrameUse::Held(Owner::Kernel)
        }
    &&& forall|i: int, j: int|
        0 <= i < j < n ==> #[trigger] stack_frame(machine, slot, i) != #[trigger] stack_frame(
            machine,
            slot,
            j,
        )
}

/// One of a stack's first `n` pages is in frame `i`.
pub open spec fn stack_names(machine: Machine, slot: int, n: int, i: int) -> bool {
    exists|page: int| 0 <= page < n && #[trigger] stack_frame(machine, slot, page) == i
}

/// A step that keeps what the kernel holds and where its stacks are keeps them
/// fresh.
proof fn stack_stays_fresh(before: Seq<FrameUse>, a: Machine, b: Machine, slot: int, n: int)
    requires
        stack_is_fresh(before, a, slot, n),
        a@.uses.len() == before.len(),
        forall|page: int|
            0 <= page < n ==> b.kernel_walk(#[trigger] stack_page(slot, page)) == a.kernel_walk(
                stack_page(slot, page),
            ),
        forall|i: int|
            0 <= i < before.len() && #[trigger] a@.uses[i] == FrameUse::Held(Owner::Kernel)
                ==> b@.uses[i] == a@.uses[i],
    ensures
        stack_is_fresh(before, b, slot, n),
{
    reveal(stack_is_fresh);
    assert forall|page: int| 0 <= page < n implies #[trigger] stack_frame(b, slot, page)
        == stack_frame(a, slot, page) by {
        let v = stack_page(slot, page);
    }
}

/// A stack that gets a free frame for its next page stays fresh.
proof fn stack_grows_fresh(
    first: Seq<FrameUse>,
    before: Machine,
    after: Machine,
    slot: int,
    page: int,
    frame: Frame,
)
    requires
        0 <= page,
        stack_is_fresh(first, before, slot, page),
        kernel_took(first, before@.uses),
        frames_took(before@.uses, after@.uses, Owner::Kernel),
        forall|p: int|
            0 <= p < page ==> after.kernel_walk(#[trigger] stack_page(slot, p))
                == before.kernel_walk(stack_page(slot, p)),
        after.kernel_walk(stack_page(slot, page)) == Some(
            (0nat, (frame.address() as u64) | leaf_bits(kernel_data())),
        ),
        frame.number < before@.uses.len() <= PHYSICAL_FRAMES,
        before@.uses[frame.number as int] == FrameUse::Free,
        after@.uses[frame.number as int] == FrameUse::Held(Owner::Kernel),
    ensures
        stack_is_fresh(first, after, slot, page + 1),
{
    reveal(stack_is_fresh);
    stack_stays_fresh(first, before, after, slot, page);
    leaf_bits_say_the_rights(frame.address() as u64, kernel_data());
    assert(stack_frame(after, slot, page) == frame.number);
    assert forall|p: int| 0 <= p < page implies #[trigger] stack_frame(after, slot, p)
        != frame.number by {
        let v = stack_page(slot, p);
        assert(stack_frame(before, slot, p) == stack_frame(after, slot, p));
        assert(before@.uses[stack_frame(before, slot, p)] == FrameUse::Held(Owner::Kernel));
    }
}

/// Taking a fresh part of a stack down moves only frames that were free.
proof fn stack_is_undone(
    first: Seq<FrameUse>,
    before: Machine,
    partial: Machine,
    after: Seq<FrameUse>,
    slot: int,
    page: int,
)
    requires
        stack_is_fresh(first, before, slot, page),
        kernel_took(first, before@.uses),
        frames_took(before@.uses, partial@.uses, Owner::Kernel),
        kernel_moved(partial@.uses, after),
        forall|p: int|
            0 <= p < page ==> partial.kernel_walk(#[trigger] stack_page(slot, p))
                == before.kernel_walk(stack_page(slot, p)),
        forall|i: int|
            0 <= i < partial@.uses.len() && !stack_names(partial, slot, page, i)
                ==> #[trigger] after[i] == partial@.uses[i],
    ensures
        kernel_took(first, after),
{
    reveal(stack_is_fresh);
    stack_stays_fresh(first, before, partial, slot, page);
    assert forall|i: int| 0 <= i < first.len() implies (#[trigger] after[i] == first[i]
        || first[i] == FrameUse::Free && (after[i] == FrameUse::Table(Owner::Kernel) || after[i]
        == FrameUse::Held(Owner::Kernel) || after[i] == FrameUse::Retired(Owner::Kernel))) by {
        assert(partial@.uses[i] == before@.uses[i] || before@.uses[i] == FrameUse::Free);
        if stack_names(partial, slot, page, i) {
            let p = choose|p: int|
                0 <= p < page && #[trigger] stack_frame(partial, slot, p) == i;
            assert(partial@.uses[stack_frame(partial, slot, p)] == FrameUse::Held(Owner::Kernel));
        }
    }
}

/// The frame of a page of a stack is in quarantine, if the kernel held it.
pub open spec fn stack_page_returned(
    before: Machine,
    after: Seq<FrameUse>,
    slot: int,
    page: int,
) -> bool {
    before.kernel_walk(stack_page(slot, page)) matches Some((l, e)) ==> l == 0
        ==> page_given_back(before@.uses, after, e, Owner::Kernel)
}

/// Unmaps the lowest `count` pages of a kernel stack.
fn unmap_stack(machine: &mut Machine, slot: usize, count: u64)
    requires
        old(machine).wf_but(slot as int),
        old(machine)@.kernel_space is Some,
        slot < MAX_THREADS,
        count <= KSTACK_PAGES,
        stack_is_mapped(*old(machine), slot as int, count as int),
    ensures
        final(machine).wf_but(slot as int),
        kernel_moved(old(machine)@.uses, final(machine)@.uses),
        forall|i: int|
            0 <= i < old(machine)@.uses.len() && !stack_names(
                *old(machine),
                slot as int,
                count as int,
                i,
            ) ==> #[trigger] final(machine)@.uses[i] == old(machine)@.uses[i],
        final(machine)@ == (MachineModel { uses: final(machine)@.uses, ..old(machine)@ }),
        translations_kept(
            old(machine).frames,
            final(machine).frames,
            |w: u64| in_stack(w, slot as int, count as int),
        ),
        forall|page: int|
            0 <= page < count ==> (final(machine).kernel_walk(
                #[trigger] stack_page(slot as int, page),
            )) is None,
        forall|page: int|
            0 <= page < count ==> #[trigger] stack_page_returned(
                *old(machine),
                final(machine)@.uses,
                slot as int,
                page,
            ),
{
    for page in 0..count
        invariant
            old(machine).wf_but(slot as int),
            machine.wf_but(slot as int),
            machine@.kernel_space is Some,
            slot < MAX_THREADS,
            count <= KSTACK_PAGES,
            stack_is_mapped(*old(machine), slot as int, count as int),
            kernel_moved(old(machine)@.uses, machine@.uses),
            forall|i: int|
                0 <= i < old(machine)@.uses.len() && !stack_names(
                    *old(machine),
                    slot as int,
                    count as int,
                    i,
                ) ==> #[trigger] machine@.uses[i] == old(machine)@.uses[i],
            machine@ == (MachineModel { uses: machine@.uses, ..old(machine)@ }),
            translations_kept(
                old(machine).frames,
                machine.frames,
                |w: u64| in_stack(w, slot as int, page as int),
            ),
            forall|p: int|
                0 <= p < page ==> (machine.kernel_walk(
                    #[trigger] stack_page(slot as int, p),
                )) is None,
            forall|p: int|
                page <= p < count ==> machine.kernel_walk(#[trigger] stack_page(slot as int, p))
                    == old(machine).kernel_walk(stack_page(slot as int, p)),
            forall|p: int|
                0 <= p < page ==> #[trigger] stack_page_returned(
                    *old(machine),
                    machine@.uses,
                    slot as int,
                    p,
                ),
    {
        let ghost before = *machine;
        let ghost v = stack_page(slot as int, page as int);
        assert(stack_entry_ok(old(machine).kernel_walk(v), true));
        let found = machine.unmap_stack_page(slot, page);
        proof {
            before.kernel_is_root(slot as int);
            assert(found);
            assert(stack_frame(*old(machine), slot as int, page as int) == stack_frame(
                before,
                slot as int,
                page as int,
            ));
            assert(stack_names(
                *old(machine),
                slot as int,
                count as int,
                stack_frame(before, slot as int, page as int),
            ));
            assert(same_page(v, v, 0));
            assert forall|p: int| 0 <= p < count && p != page implies machine.kernel_walk(
                #[trigger] stack_page(slot as int, p),
            ) == before.kernel_walk(stack_page(slot as int, p)) by {
                stack_pages_are_apart(slot as int, p, slot as int, page as int);
            }
            assert forall|p: int| 0 <= p < page + 1 implies #[trigger] stack_page_returned(
                *old(machine),
                machine@.uses,
                slot as int,
                p,
            ) by {
                if p < page {
                    assert(stack_page_returned(*old(machine), before@.uses, slot as int, p));
                }
            }
            kept_further(*old(machine), before, *machine, slot as int, page as int);
        }
    }
}

/// Changing one page more of a stack keeps every translation outside it.
proof fn kept_further(first: Machine, before: Machine, after: Machine, slot: int, page: int)
    requires
        0 <= page,
        translations_kept(first.frames, before.frames, |w: u64| in_stack(w, slot, page)),
        translations_kept(
            before.frames,
            after.frames,
            |w: u64| same_page(w, stack_page(slot, page), 0),
        ),
    ensures
        translations_kept(first.frames, after.frames, |w: u64| in_stack(w, slot, page + 1)),
{
    assert forall|r: int| is_root(first.frames, r) implies #[trigger] is_root(after.frames, r) by {
        assert(is_root(before.frames, r));
    }
    assert forall|r: int, w: u64|
        is_root(first.frames, r) && !in_stack(w, slot, page + 1) implies #[trigger] walk(
        after.frames,
        r,
        w,
    ) == walk(first.frames, r, w) by {
        assert(is_root(before.frames, r));
        assert(!same_page(w, stack_page(slot, page), 0));
        if in_stack(w, slot, page) {
            let p = choose|p: int| 0 <= p < page && #[trigger] same_page(w, stack_page(slot, p), 0);
            assert(0 <= p < page + 1 && same_page(w, stack_page(slot, p), 0));
        }
        assert(walk(before.frames, r, w) == walk(first.frames, r, w));
    }
}

/// Takes a kernel stack down and frees its slot.
fn release_kernel_stack(machine: &mut Machine, slot: usize)
    requires
        old(machine).wf(),
        old(machine)@.kernel_space is Some,
        slot < MAX_THREADS,
    ensures
        final(machine).wf(),
        kernel_moved(old(machine)@.uses, final(machine)@.uses),
        final(machine)@ == (MachineModel {
            uses: final(machine)@.uses,
            ..old(machine)@.with_kstack(slot as int, false)
        }),
        stacks_returned(*old(machine), *final(machine)),
{
    if !machine.kstack(slot) {
        proof {
            machine.wf_sized();
            assert(machine@.with_kstack(slot as int, false) =~= machine@);
        }
        return;
    }
    proof {
        machine.wf_sized();
        machine.opens_for(slot as int);
    }
    unmap_stack(machine, slot, KSTACK_PAGES);
    let ghost bare = *machine;
    proof {
        let guard = stack_page(slot as int, -1);
        old(machine).kernel_is_root(-1);
        assert forall|page: int| 0 <= page < KSTACK_PAGES implies !same_page(
            guard,
            #[trigger] stack_page(slot as int, page),
            0,
        ) by {
            stack_pages_are_apart(slot as int, -1, slot as int, page);
        }
        assert(!in_stack(guard, slot as int, KSTACK_PAGES as int));
        assert(machine.kernel_walk(guard) == old(machine).kernel_walk(guard));
    }
    machine.set_kstack(slot, false);
    proof {
        assert forall|s: int, page: int|
            0 <= s < MAX_THREADS && s != slot && 0 <= page < KSTACK_PAGES implies
            machine.kernel_walk(#[trigger] stack_page(s, page)) == old(machine).kernel_walk(
            stack_page(s, page),
        ) by {
            let w = stack_page(s, page);
            assert forall|p: int| 0 <= p < KSTACK_PAGES implies !same_page(
                w,
                #[trigger] stack_page(slot as int, p),
                0,
            ) by {
                stack_pages_are_apart(s, page, slot as int, p);
            }
            assert(!in_stack(w, slot as int, KSTACK_PAGES as int));
            assert(bare.kernel_walk(w) == old(machine).kernel_walk(w));
        }
    }
}

/// Every stack that is taken after was taken before and is where it was; of
/// every stack that was given up, the frames the kernel held are in quarantine.
pub open spec fn stacks_returned(before: Machine, after: Machine) -> bool {
    &&& forall|slot: int|
        0 <= slot < MAX_THREADS && #[trigger] after@.kstacks[slot] ==> before@.kstacks[slot]
    &&& forall|slot: int, page: int|
        0 <= slot < MAX_THREADS && 0 <= page < KSTACK_PAGES && after@.kstacks[slot]
            ==> after.kernel_walk(#[trigger] stack_page(slot, page)) == before.kernel_walk(
            stack_page(slot, page),
        )
    &&& forall|slot: int, page: int|
        0 <= slot < MAX_THREADS && 0 <= page < KSTACK_PAGES && before@.kstacks[slot]
            && !after@.kstacks[slot] ==> #[trigger] stack_page_returned(
            before,
            after@.uses,
            slot,
            page,
        )
}

/// Frames that left the kernel's hands do not come back to them.
pub open spec fn kernel_gave_up(before: Seq<FrameUse>, after: Seq<FrameUse>) -> bool {
    &&& after.len() == before.len()
    &&& forall|i: int|
        0 <= i < before.len() ==> {
            &&& #[trigger] before[i] == FrameUse::Held(Owner::Kernel) ==> after[i] == before[i]
                || after[i] == FrameUse::Retired(Owner::Kernel)
            &&& before[i] == FrameUse::Retired(Owner::Kernel) ==> after[i] == before[i]
        }
}

/// A kernel stack that is taken has its pages, which the kernel may write and
/// nobody execute, above a guard page that is not mapped.
pub proof fn taken_stacks_are_mapped(machine: Machine, slot: int)
    requires
        machine.wf(),
        machine@.kernel_space is Some,
        0 <= slot < MAX_THREADS,
        machine@.kstacks[slot],
    ensures
        stack_is_mapped(machine, slot, KSTACK_PAGES as int),
        machine.kernel_walk(stack_page(slot, -1)) is None,
{
    machine.opens_for(slot);
}

/// Of a kernel stack slot that is free nothing translates.
pub proof fn free_stacks_map_nothing(machine: Machine, slot: int, page: int)
    requires
        machine.wf(),
        machine@.kernel_space is Some,
        0 <= slot < MAX_THREADS,
        -1 <= page < KSTACK_PAGES,
        !machine@.kstacks[slot],
    ensures
        machine.kernel_walk(stack_page(slot, page)) is None,
{
    machine.opens_for(slot);
    if page >= 0 {
        assert(stack_entry_ok(machine.kernel_walk(stack_page(slot, page)), false));
    }
}

/// Where the kernel's own translations stay and no slot changes hands, no stack
/// does.
proof fn kept_walks_return(before: Machine, after: Machine)
    requires
        before@.kernel_space is Some,
        after@.kernel_space == before@.kernel_space,
        after@.kstacks == before@.kstacks,
        after.kernel_as(before) || after.same_tables(before),
    ensures
        stacks_returned(before, after),
{
    assert forall|slot: int, page: int|
        0 <= slot < MAX_THREADS && 0 <= page < KSTACK_PAGES && after@.kstacks[slot] implies
        after.kernel_walk(#[trigger] stack_page(slot, page)) == before.kernel_walk(
        stack_page(slot, page),
    ) by {}
}

/// Returning stacks goes on over a step that returns more.
proof fn stacks_return_on(a: Machine, b: Machine, c: Machine)
    requires
        stacks_returned(a, b),
        stacks_returned(b, c),
        kernel_gave_up(a@.uses, b@.uses),
        kernel_gave_up(b@.uses, c@.uses),
    ensures
        stacks_returned(a, c),
        kernel_gave_up(a@.uses, c@.uses),
{
    assert forall|i: int| 0 <= i < a@.uses.len() implies {
        &&& #[trigger] a@.uses[i] == FrameUse::Held(Owner::Kernel) ==> c@.uses[i] == a@.uses[i]
            || c@.uses[i] == FrameUse::Retired(Owner::Kernel)
        &&& a@.uses[i] == FrameUse::Retired(Owner::Kernel) ==> c@.uses[i] == a@.uses[i]
    } by {
        let u = b@.uses[i];
    }
    assert forall|slot: int, page: int|
        0 <= slot < MAX_THREADS && 0 <= page < KSTACK_PAGES && c@.kstacks[slot] implies
        c.kernel_walk(#[trigger] stack_page(slot, page)) == a.kernel_walk(
        stack_page(slot, page),
    ) by {
        assert(b@.kstacks[slot]);
    }
    assert forall|slot: int| 0 <= slot < MAX_THREADS && #[trigger] c@.kstacks[slot] implies
        a@.kstacks[slot] by {
        assert(b@.kstacks[slot]);
    }
    assert forall|slot: int, page: int|
        0 <= slot < MAX_THREADS && 0 <= page < KSTACK_PAGES && a@.kstacks[slot]
            && !c@.kstacks[slot] implies #[trigger] stack_page_returned(
        a,
        c@.uses,
        slot,
        page,
    ) by {
        let w = stack_page(slot, page);
        if b@.kstacks[slot] {
            assert(b.kernel_walk(w) == a.kernel_walk(w));
            assert(stack_page_returned(b, c@.uses, slot, page));
        } else {
            assert(stack_page_returned(a, b@.uses, slot, page));
        }
        if let Some((l, e)) = a.kernel_walk(w) {
            let f = target(e) as int / 0x1000;
            if f < a@.uses.len() {
                let u = a@.uses[f];
                let v = b@.uses[f];
            }
        }
    }
}

/// Finds the first kernel stack slot that is free.
fn find_kstack(machine: &Machine) -> (slot: usize)
    requires
        machine.wf(),
    ensures
        slot == first_kstack(machine@.kstacks, 0),
        slot <= MAX_THREADS,
{
    let mut slot: usize = 0;
    while slot < MAX_THREADS && machine.kstack(slot)
        invariant
            machine.wf(),
            slot <= MAX_THREADS,
            first_kstack(machine@.kstacks, 0) == first_kstack(machine@.kstacks, slot as int),
        decreases MAX_THREADS - slot,
    {
        slot += 1;
    }
    slot
}

/// Why a kernel stack could not be made.
pub open spec fn stack_refused(machine: Machine, e: CreateError) -> bool {
    match e {
        CreateError::OutOfMemory => machine.frames.free_frames() < 4 * KSTACK_PAGES,
        CreateError::KernelStackExhausted => first_kstack(machine@.kstacks, 0) == MAX_THREADS,
        _ => false,
    }
}

/// Takes the lowest `page` pages of a stack down that could not be finished.
fn give_up_stack(machine: &mut Machine, slot: usize, page: u64)
    requires
        old(machine).wf_but(slot as int),
        old(machine)@.kernel_space is Some,
        slot < MAX_THREADS,
        !old(machine)@.kstacks[slot as int],
        page < KSTACK_PAGES,
        stack_is_mapped(*old(machine), slot as int, page as int),
        old(machine).kernel_walk(stack_page(slot as int, -1)) is None,
        forall|p: int|
            page <= p < KSTACK_PAGES ==> (old(machine).kernel_walk(
                #[trigger] stack_page(slot as int, p),
            )) is None,
    ensures
        final(machine).wf(),
        kernel_moved(old(machine)@.uses, final(machine)@.uses),
        forall|i: int|
            0 <= i < old(machine)@.uses.len() && !stack_names(
                *old(machine),
                slot as int,
                page as int,
                i,
            ) ==> #[trigger] final(machine)@.uses[i] == old(machine)@.uses[i],
        final(machine)@ == (MachineModel { uses: final(machine)@.uses, ..old(machine)@ }),
{
    let ghost partial = *machine;
    unmap_stack(machine, slot, page);
    proof {
        partial.kernel_is_root(slot as int);
        assert forall|p: int| -1 <= p < KSTACK_PAGES implies (machine.kernel_walk(
            #[trigger] stack_page(slot as int, p),
        )) is None by {
            if p < 0 || p >= page {
                let w = stack_page(slot as int, p);
                assert forall|q: int| 0 <= q < page implies !same_page(
                    w,
                    #[trigger] stack_page(slot as int, q),
                    0,
                ) by {
                    stack_pages_are_apart(slot as int, p, slot as int, q);
                }
                assert(!in_stack(w, slot as int, page as int));
                assert(machine.kernel_walk(w) == partial.kernel_walk(w));
            }
        }
        assert(machine.kernel_walk(stack_page(slot as int, -1)) is None);
        machine.closes_for(slot as int);
    }
}

/// Maps the pages of a free kernel stack slot and takes it.
///
/// The lowest page of a slot stays unmapped as a guard: an overflow faults on it
/// instead of writing into the slot below.
pub(crate) fn allocate_kernel_stack(machine: &mut Machine) -> (result: Result<
    (usize, u64),
    CreateError,
>)
    requires
        old(machine).wf(),
        old(machine)@.kernel_space is Some,
    ensures
        final(machine).wf(),
        kernel_took(old(machine)@.uses, final(machine)@.uses),
        ({
            let slot = first_kstack(old(machine)@.kstacks, 0);
            match result {
                Ok((at, top)) => {
                    &&& at == slot
                    &&& slot < MAX_THREADS
                    &&& top == stack_top(slot)
                    &&& final(machine)@ == (MachineModel {
                        uses: final(machine)@.uses,
                        ..old(machine)@.with_kstack(slot, true)
                    })
                    &&& stack_is_mapped(*final(machine), slot, KSTACK_PAGES as int)
                    &&& stack_is_fresh(
                        old(machine)@.uses,
                        *final(machine),
                        slot,
                        KSTACK_PAGES as int,
                    )
                    &&& data_kept(old(machine).frames, final(machine).frames)
                },
                Err(e) => {
                    &&& e == CreateError::KernelStackExhausted <==> slot == MAX_THREADS
                    &&& stack_refused(*old(machine), e)
                    &&& final(machine)@ == (MachineModel {
                        uses: final(machine)@.uses,
                        ..old(machine)@
                    })
                },
            }
        }),
{
    let slot: usize = find_kstack(machine);
    if slot == MAX_THREADS {
        return Err(CreateError::KernelStackExhausted);
    }
    proof {
        machine.wf_sized();
        first_kstack_is_free(machine@.kstacks, 0);
        machine.opens_for(slot as int);
        stack_pages_are_dynamic(slot as int, -1);
        assert(stack_is_fresh(machine@.uses, *machine, slot as int, 0)) by {
            reveal(stack_is_fresh);
        }
    }
    for page in 0..KSTACK_PAGES
        invariant
            old(machine).wf(),
            machine.wf_but(slot as int),
            machine@.kernel_space is Some,
            slot < MAX_THREADS,
            !old(machine)@.kstacks[slot as int],
            kernel_took(old(machine)@.uses, machine@.uses),
            stack_is_fresh(old(machine)@.uses, *machine, slot as int, page as int),
            data_kept(old(machine).frames, machine.frames),
            machine@ == (MachineModel { uses: machine@.uses, ..old(machine)@ }),
            stack_is_mapped(*machine, slot as int, page as int),
            slot == first_kstack(old(machine)@.kstacks, 0),
            machine.frames.free_frames() >= old(machine).frames.free_frames() - 4 * page,
            machine.kernel_walk(stack_page(slot as int, -1)) is None,
            forall|p: int|
                page <= p < KSTACK_PAGES ==> (machine.kernel_walk(
                    #[trigger] stack_page(slot as int, p),
                )) is None,
    {
        let ghost before = *machine;
        let ghost v = stack_page(slot as int, page as int);
        assert(before.kernel_walk(v) is None);
        let result = machine.map_stack_page(slot, page);
        proof {
            before.kernel_is_root(slot as int);
            assert(same_page(v, v, 0));
            assert forall|p: int| -1 <= p < KSTACK_PAGES && p != page implies machine.kernel_walk(
                #[trigger] stack_page(slot as int, p),
            ) == before.kernel_walk(stack_page(slot as int, p)) by {
                stack_pages_are_apart(slot as int, p, slot as int, page as int);
            }
            assert(machine.kernel_walk(stack_page(slot as int, -1)) is None);
        }
        match result {
            Ok(frame) => {
                proof {
                    before.frames_are_addressable(slot as int);
                    leaf_bits_say_the_rights(frame.address() as u64, kernel_data());
                    assert(stack_entry_ok(machine.kernel_walk(v), true));
                    old(machine).frames_are_addressable(-1);
                    data_kept_on(old(machine).frames, before.frames, machine.frames);
                    stack_grows_fresh(
                        old(machine)@.uses,
                        before,
                        *machine,
                        slot as int,
                        page as int,
                        frame,
                    );
                }
            },
            Err(error) => {
                proof {
                    assert(machine.kernel_walk(v) == before.kernel_walk(v));
                    assert(stack_refused(*old(machine), refused_by(error)));
                }
                let ghost partial = *machine;
                give_up_stack(machine, slot, page);
                proof {
                    stack_is_undone(
                        old(machine)@.uses,
                        before,
                        partial,
                        machine@.uses,
                        slot as int,
                        page as int,
                    );
                }
                return Err(CreateError::from(error));
            },
        }
    }
    let ghost filled = *machine;
    machine.set_kstack(slot, true);
    proof {
        stack_stays_fresh(
            old(machine)@.uses,
            filled,
            *machine,
            slot as int,
            KSTACK_PAGES as int,
        );
        old(machine).frames_are_addressable(-1);
        filled.frames_are_addressable(slot as int);
        assert(data_kept(filled.frames, machine.frames));
        data_kept_on(old(machine).frames, filled.frames, machine.frames);
    }
    assert(stack_is_mapped(*machine, slot as int, KSTACK_PAGES as int));
    Ok((slot, kstack_slot_base(slot) + KSTACK_SLOT_BYTES))
}

proof fn first_kstack_is_free(kstacks: Seq<bool>, from: int)
    requires
        0 <= from,
    ensures
        first_kstack(kstacks, from) < MAX_THREADS ==> from <= first_kstack(kstacks, from)
            && !kstacks[first_kstack(kstacks, from)],
    decreases MAX_THREADS - from,
{
    if from < MAX_THREADS && kstacks[from] {
        first_kstack_is_free(kstacks, from + 1);
    }
}

/// One page to map while a domain is built, and what it is loaded with.
#[derive(Clone, Copy, Debug, PartialEq, Eq, Structural)]
pub struct PagePlan {
    /// Where it goes.
    pub vaddr: u64,
    /// What it permits.
    pub rights: Rights,
    /// Where its bytes start in the image.
    pub offset: usize,
    /// How many there are; the rest of the page is zero.
    pub len: usize,
}

/// One page that was mapped, and the bytes of the image to copy to its frame.
#[derive(Clone, Copy, Debug, PartialEq, Eq, Structural)]
pub struct PageLoad {
    /// The frame.
    pub frame: Frame,
    /// Where its bytes start in the image.
    pub offset: usize,
    /// How many there are.
    pub len: usize,
}

/// Bytes of the image in page `p` of a segment.
pub open spec fn bytes_in_page(segment: elf::Segment, p: int) -> int {
    if segment.file_len <= p * 0x1000 {
        0
    } else if segment.file_len - p * 0x1000 < 0x1000 {
        segment.file_len - p * 0x1000
    } else {
        0x1000
    }
}

/// What is mapped for page `p` of a segment.
pub open spec fn segment_page(segment: elf::Segment, p: int) -> PagePlan {
    PagePlan {
        vaddr: page_at(segment.vaddr, p),
        rights: Rights {
            read: segment.read,
            write: segment.write,
            execute: segment.execute,
            user: true,
            uncacheable: false,
        },
        offset: if bytes_in_page(segment, p) == 0 {
            0
        } else {
            (segment.file_offset + p * 0x1000) as usize
        },
        len: bytes_in_page(segment, p) as usize,
    }
}

/// What is mapped for `segments`, in order.
pub open spec fn segment_pages(segments: Seq<elf::Segment>) -> Seq<PagePlan>
    decreases segments.len(),
{
    if segments.len() == 0 {
        Seq::empty()
    } else {
        segment_pages(segments.drop_last()) + Seq::new(
            segments.last().page_count() as nat,
            |p: int| segment_page(segments.last(), p),
        )
    }
}

/// What is mapped for page `p` of the initial stack.
pub open spec fn user_stack_page(p: int) -> PagePlan {
    PagePlan {
        vaddr: page_at((USER_STACK_TOP - USER_STACK_PAGES * 0x1000) as u64, p),
        rights: Rights {
            read: true,
            write: true,
            execute: false,
            user: true,
            uncacheable: false,
        },
        offset: 0,
        len: 0,
    }
}

/// Everything that is mapped for an image: its segments, then its stack.
pub open spec fn image_plan(segments: Seq<elf::Segment>) -> Seq<PagePlan> {
    segment_pages(segments) + Seq::new(USER_STACK_PAGES as nat, |p: int| user_stack_page(p))
}

/// A page that can be planned: in the user range, aligned, and with rights the
/// platform has.
pub open spec fn plannable(plan: PagePlan) -> bool {
    &&& plan.vaddr < 0x8000_0000_0000
    &&& plan.vaddr % 0x1000 == 0
    &&& plan.rights.fault() is None
}

/// Plans the pages of one segment.
fn plan_segment(plans: &mut Vec<PagePlan>, segment: &elf::Segment, Ghost(length): Ghost<int>)
    requires
        segment.vaddr % 0x1000 == 0,
        segment.page_end() <= 0x8000_0000_0000,
        segment.file_offset + segment.file_len <= length,
        length <= usize::MAX,
        segment.read,
        !(segment.write && segment.execute),
        forall|i: int| 0 <= i < old(plans)@.len() ==> plannable(#[trigger] old(plans)@[i]),
    ensures
        final(plans)@ == old(plans)@ + Seq::new(
            segment.page_count() as nat,
            |p: int| segment_page(*segment, p),
        ),
        forall|i: int| 0 <= i < final(plans)@.len() ==> plannable(#[trigger] final(plans)@[i]),
{
    let count: u64 = segment.pages();
    let ghost before = plans@;
    assert(plans@ =~= before + Seq::new(0, |p: int| segment_page(*segment, p)));
    for p in 0..count
        invariant
            count == segment.page_count(),
            segment.vaddr % 0x1000 == 0,
            segment.page_end() <= 0x8000_0000_0000,
            segment.file_offset + segment.file_len <= length,
            length <= usize::MAX,
            segment.read,
            !(segment.write && segment.execute),
            plans@ == before + Seq::new(p as nat, |p: int| segment_page(*segment, p)),
            forall|i: int| 0 <= i < plans@.len() ==> plannable(#[trigger] plans@[i]),
    {
        let start: u64 = p * 0x1000;
        let vaddr: u64 = segment.vaddr + start;
        let len: usize = if segment.file_len as u64 <= start {
            0
        } else if segment.file_len as u64 - start < 0x1000 {
            (segment.file_len as u64 - start) as usize
        } else {
            0x1000
        };
        let offset: usize = if len == 0 {
            0
        } else {
            segment.file_offset + start as usize
        };
        let rights = Rights::user(segment.read, segment.write, segment.execute);
        let plan = PagePlan { vaddr, rights, offset, len };
        assert(plan == segment_page(*segment, p as int));
        plans.push(plan);
        assert(plans@ =~= before + Seq::new((p + 1) as nat, |p: int| segment_page(*segment, p)));
    }
}

/// Plans everything that is mapped for an image.
fn plan_image(image: &elf::Image, Ghost(length): Ghost<int>) -> (plans: Vec<PagePlan>)
    requires
        image.segment_count <= elf::MAX_SEGMENTS,
        elf::segments_are_sound(image.loaded(), length),
        length <= usize::MAX,
    ensures
        plans@ == image_plan(image.loaded()),
        forall|i: int| 0 <= i < plans@.len() ==> plannable(#[trigger] plans@[i]),
{
    let mut plans: Vec<PagePlan> = Vec::new();
    let count: usize = image.segment_count;
    assert(image.loaded().take(0) =~= Seq::empty());
    for n in 0..count
        invariant
            count == image.segment_count,
            count <= elf::MAX_SEGMENTS,
            elf::segments_are_sound(image.loaded(), length),
            length <= usize::MAX,
            plans@ == segment_pages(image.loaded().take(n as int)),
            forall|i: int| 0 <= i < plans@.len() ==> plannable(#[trigger] plans@[i]),
    {
        let segment = image.segments[n];
        assert(image.loaded()[n as int] == segment);
        plan_segment(&mut plans, &segment, Ghost(length));
        assert(image.loaded().take(n + 1).drop_last() =~= image.loaded().take(n as int));
        assert(image.loaded().take(n + 1).last() == segment);
    }
    assert(image.loaded().take(count as int) =~= image.loaded());
    let ghost before = plans@;
    assert(plans@ =~= before + Seq::new(0, |p: int| user_stack_page(p)));
    let low: u64 = USER_STACK_TOP - USER_STACK_PAGES * 0x1000;
    for p in 0..USER_STACK_PAGES
        invariant
            low == USER_STACK_TOP - USER_STACK_PAGES * 0x1000,
            plans@ == before + Seq::new(p as nat, |p: int| user_stack_page(p)),
            forall|i: int| 0 <= i < plans@.len() ==> plannable(#[trigger] plans@[i]),
    {
        let plan = PagePlan {
            vaddr: low + p * 0x1000,
            rights: Rights::user(true, true, false),
            offset: 0,
            len: 0,
        };
        assert(plan == user_stack_page(p as int));
        plans.push(plan);
        assert(plans@ =~= before + Seq::new((p + 1) as nat, |p: int| user_stack_page(p)));
    }
    plans
}

/// Page `i` of a plan is mapped in the space of `root`, to the frame that was
/// taken for it.
pub open spec fn plan_is_mapped(
    pages: Map<(int, u64), (nat, u64)>,
    root: int,
    plans: Seq<PagePlan>,
    loads: Seq<PageLoad>,
    i: int,
) -> bool {
    &&& pages.contains_key((root, plans[i].vaddr))
    &&& pages[(root, plans[i].vaddr)] == (
        0nat,
        (loads[i].frame.address() as u64) | leaf_bits(plans[i].rights),
    )
    &&& loads[i].offset == plans[i].offset
    &&& loads[i].len == plans[i].len
}

/// The space of `root` holds what the first `n` pages of a plan say and nothing
/// else, and no other space changed.
pub open spec fn plan_holds(
    before: Map<(int, u64), (nat, u64)>,
    after: Map<(int, u64), (nat, u64)>,
    root: int,
    plans: Seq<PagePlan>,
    loads: Seq<PageLoad>,
    n: int,
) -> bool {
    &&& forall|k: (int, u64)|
        k.0 != root ==> {
            &&& #[trigger] after.contains_key(k) == before.contains_key(k)
            &&& after.contains_key(k) ==> after[k] == before[k]
        }
    &&& forall|i: int|
        0 <= i < n ==> #[trigger] plan_is_mapped(after, root, plans, loads, i)
    &&& forall|v: u64|
        #[trigger] after.contains_key((root, v)) ==> after[(root, v)].0 == 0 && exists|i: int|
            0 <= i < n && same_page(v, #[trigger] plans[i].vaddr, 0)
}

/// The frame was free before, and is now held by `owner` and holds nothing but
/// zeros.
pub open spec fn is_fresh(
    before: Seq<FrameUse>,
    after: FrameAllocator,
    frame: Frame,
    owner: Owner,
) -> bool {
    &&& frame.number < before.len()
    &&& before[frame.number as int] == FrameUse::Free
    &&& after.uses_spec()[frame.number as int] == FrameUse::Held(owner)
    &&& is_zero(after.contents()[frame.number as int])
}

/// Every page that was mapped has a fresh frame of its own.
pub open spec fn loads_are_fresh(
    before: Seq<FrameUse>,
    after: FrameAllocator,
    loads: Seq<PageLoad>,
    owner: Owner,
) -> bool {
    &&& forall|i: int|
        0 <= i < loads.len() ==> is_fresh(before, after, (#[trigger] loads[i]).frame, owner)
    &&& forall|i: int, j: int|
        0 <= i < j < loads.len() ==> (#[trigger] loads[i]).frame != (#[trigger] loads[j]).frame
}

/// What is fresh stays so where data is kept.
proof fn loads_stay_fresh(
    before: Seq<FrameUse>,
    a: FrameAllocator,
    b: FrameAllocator,
    loads: Seq<PageLoad>,
    owner: Owner,
)
    requires
        loads_are_fresh(before, a, loads, owner),
        a.frames() == before.len(),
        data_kept(a, b),
    ensures
        loads_are_fresh(before, b, loads, owner),
{
    assert forall|i: int| 0 <= i < loads.len() implies is_fresh(
        before,
        b,
        (#[trigger] loads[i]).frame,
        owner,
    ) by {
        let n = loads[i].frame.number as int;
        assert(is_fresh(before, a, loads[i].frame, owner));
        assert(b.contents()[n] == a.contents()[n]);
    }
}

/// Two pages of a plan are the same.
pub open spec fn plan_repeats(plans: Seq<PagePlan>) -> bool {
    exists|i: int, j: int|
        0 <= i < j < plans.len() && same_page(
            (#[trigger] plans[j]).vaddr,
            (#[trigger] plans[i]).vaddr,
            0,
        )
}

/// Every frame that `owner` holds since `before` is mapped in the space of
/// `root`.
pub open spec fn held_is_mapped(
    before: Seq<FrameUse>,
    after: Seq<FrameUse>,
    pages: Map<(int, u64), (nat, u64)>,
    root: int,
    owner: Owner,
) -> bool {
    forall|i: int|
        0 <= i < before.len() && #[trigger] after[i] == FrameUse::Held(owner) && before[i]
            != FrameUse::Held(owner) ==> is_mapped_somewhere(pages, root, i)
}

/// Some page of the space of `root` is frame `i`.
pub open spec fn is_mapped_somewhere(
    pages: Map<(int, u64), (nat, u64)>,
    root: int,
    i: int,
) -> bool {
    exists|v: u64| #[trigger]
        pages.contains_key((root, v)) && target(pages[(root, v)].1) as int / 0x1000 == i
}

/// Domain `d` owns no table and holds no frame that it did not hold before.
pub open spec fn frames_returned(before: Seq<FrameUse>, after: Seq<FrameUse>, d: int) -> bool {
    &&& owns_no_table(after, d)
    &&& forall|i: int|
        0 <= i < before.len() && #[trigger] after[i] == FrameUse::Held(Owner::Domain(d as u16))
            ==> before[i] == after[i]
}

/// Taking the space of a partial domain down returns what was taken for it.
proof fn taken_frames_return(
    first: Seq<FrameUse>,
    spaced: Seq<FrameUse>,
    mapped: Seq<FrameUse>,
    partial: MachineModel,
    after: Seq<FrameUse>,
    d: int,
)
    requires
        first.len() == spaced.len() == mapped.len() == partial.uses.len() == after.len(),
        forall|i: int|
            0 <= i < first.len() && #[trigger] spaced[i] == FrameUse::Held(
                Owner::Domain(d as u16),
            ) ==> first[i] == spaced[i],
        held_is_mapped(
            spaced,
            mapped,
            partial.pages,
            partial.root_of(d),
            Owner::Domain(d as u16),
        ),
        kernel_took(mapped, partial.uses),
        space_retired(partial.uses, after, Owner::Domain(d as u16)),
        pages_given_back(partial, after, d),
        owns_no_table(after, d),
    ensures
        frames_returned(first, after, d),
{
    let owner = Owner::Domain(d as u16);
    assert forall|i: int|
        0 <= i < first.len() && #[trigger] after[i] == FrameUse::Held(owner) implies first[i]
        == after[i] by {
        assert(partial.uses[i] == after[i]);
        assert(mapped[i] == partial.uses[i]);
        if spaced[i] != FrameUse::Held(owner) {
            let root = partial.root_of(d);
            let v = choose|v: u64| #[trigger]
                partial.pages.contains_key((root, v)) && target(
                    partial.pages[(root, v)].1,
                ) as int / 0x1000 == i;
            assert(page_given_back(partial.uses, after, partial.pages[(root, v)].1, owner));
        }
    }
}

/// Maps the pages of a plan in the empty space of a domain.
fn map_plan(machine: &mut Machine, d: usize, plans: &Vec<PagePlan>) -> (result: Result<
    Vec<PageLoad>,
    MapError,
>)
    requires
        old(machine).wf(),
        d < MAX_DOMAINS,
        old(machine)@.domains[d as int].space is Some,
        forall|i: int| 0 <= i < plans@.len() ==> plannable(#[trigger] plans@[i]),
        forall|v: u64|
            !(#[trigger] old(machine)@.pages.contains_key(
                (old(machine)@.root_of(d as int), v),
            )),
    ensures
        final(machine).wf(),
        frames_took(old(machine)@.uses, final(machine)@.uses, Owner::Domain(d as u16)),
        final(machine)@ == (MachineModel {
            uses: final(machine)@.uses,
            pages: final(machine)@.pages,
            ..old(machine)@
        }),
        final(machine).kernel_as(*old(machine)),
        held_is_mapped(
            old(machine)@.uses,
            final(machine)@.uses,
            final(machine)@.pages,
            old(machine)@.root_of(d as int),
            Owner::Domain(d as u16),
        ),
        match result {
            Ok(loads) => {
                &&& loads@.len() == plans@.len()
                &&& final(machine).frames.free_frames() >= old(machine).frames.free_frames() - 4
                    * plans@.len()
                &&& plan_holds(
                    old(machine)@.pages,
                    final(machine)@.pages,
                    old(machine)@.root_of(d as int),
                    plans@,
                    loads@,
                    plans@.len() as int,
                )
                &&& loads_are_fresh(
                    old(machine)@.uses,
                    final(machine).frames,
                    loads@,
                    Owner::Domain(d as u16),
                )
            },
            Err(e) => {
                &&& forall|k: (int, u64)|
                    k.0 != old(machine)@.root_of(d as int) ==> {
                        &&& #[trigger] final(machine)@.pages.contains_key(k) == old(
                            machine,
                        )@.pages.contains_key(k)
                        &&& final(machine)@.pages.contains_key(k) ==> final(machine)@.pages[k]
                            == old(machine)@.pages[k]
                    }
                &&& e == MapError::OutOfMemory && old(machine).frames.free_frames() < 4
                    * plans@.len() || e == MapError::AlreadyMapped && plan_repeats(plans@)
            },
        },
{
    let ghost m = machine@;
    let ghost root = m.root_of(d as int);
    let ghost free = machine.frames.free_frames();
    let mut loads: Vec<PageLoad> = Vec::new();
    for i in 0..plans.len()
        invariant
            machine.wf(),
            d < MAX_DOMAINS,
            m == old(machine)@,
            root == m.root_of(d as int),
            m.domains[d as int].space is Some,
            forall|i: int| 0 <= i < plans@.len() ==> plannable(#[trigger] plans@[i]),
            frames_took(m.uses, machine@.uses, Owner::Domain(d as u16)),
            machine@ == (MachineModel { uses: machine@.uses, pages: machine@.pages, ..m }),
            loads@.len() == i,
            plan_holds(m.pages, machine@.pages, root, plans@, loads@, i as int),
            free == old(machine).frames.free_frames(),
            machine.kernel_as(*old(machine)),
            machine.frames.free_frames() >= free - 4 * i,
            loads_are_fresh(m.uses, machine.frames, loads@, Owner::Domain(d as u16)),
            held_is_mapped(
                m.uses,
                machine@.uses,
                machine@.pages,
                root,
                Owner::Domain(d as u16),
            ),
    {
        let plan = plans[i];
        let ghost before = *machine;
        assert(plannable(plans@[i as int]));
        match machine.map_fresh(d, plan.vaddr, plan.rights) {
            Err(error) => {
                proof {
                    if before@.pages.contains_key((root, plan.vaddr)) {
                        let j = choose|j: int|
                            0 <= j < i && same_page(plan.vaddr, #[trigger] plans@[j].vaddr, 0);
                        assert(same_page(plans@[i as int].vaddr, plans@[j].vaddr, 0));
                    }
                    assert forall|k: int|
                        0 <= k < m.uses.len() && #[trigger] machine@.uses[k] == FrameUse::Held(
                            Owner::Domain(d as u16),
                        ) && m.uses[k] != FrameUse::Held(Owner::Domain(d as u16)) implies
                        is_mapped_somewhere(machine@.pages, root, k) by {
                        assert(before@.uses[k] == machine@.uses[k]);
                    }
                }
                return Err(error);
            },
            Ok(frame) => {
                let ghost held = loads@;
                loads.push(PageLoad { frame, offset: plan.offset, len: plan.len });
                proof {
                    before.frames_are_addressable(-1);
                    loads_stay_fresh(
                        m.uses,
                        before.frames,
                        machine.frames,
                        held,
                        Owner::Domain(d as u16),
                    );
                    assert forall|k: int| 0 <= k < i implies (#[trigger] loads@[k]).frame
                        != frame by {
                        assert(loads@[k] == held[k]);
                        assert(is_fresh(
                            m.uses,
                            before.frames,
                            held[k].frame,
                            Owner::Domain(d as u16),
                        ));
                    }
                    before.clear_from_start(root, plan.vaddr);
                    assert(same_page(plan.vaddr, plan.vaddr, 0));
                    before.frames_are_addressable(-1);
                    mapped_frame_comes_back(frame, plan.rights);
                    assert forall|k: int|
                        0 <= k < m.uses.len() && #[trigger] machine@.uses[k] == FrameUse::Held(
                            Owner::Domain(d as u16),
                        ) && m.uses[k] != FrameUse::Held(Owner::Domain(d as u16)) implies
                        is_mapped_somewhere(machine@.pages, root, k) by {
                        if frame.number == k {
                            assert(machine@.pages.contains_key((root, plan.vaddr)));
                        } else {
                            assert(before@.uses[k] == machine@.uses[k]);
                            let v = choose|v: u64| #[trigger]
                                before@.pages.contains_key((root, v)) && target(
                                    before@.pages[(root, v)].1,
                                ) as int / 0x1000 == k;
                            assert(!same_page(v, plan.vaddr, 0));
                            assert(machine@.pages.contains_key((root, v)));
                        }
                    }
                    assert forall|k: int| 0 <= k < i + 1 implies #[trigger] plan_is_mapped(
                        machine@.pages,
                        root,
                        plans@,
                        loads@,
                        k,
                    ) by {
                        if k < i {
                            assert(plan_is_mapped(before@.pages, root, plans@, held, k));
                            assert(loads@[k] == held[k]);
                            if same_page(plans@[k].vaddr, plan.vaddr, 0) {
                                assert(before@.pages.contains_key((root, plans@[k].vaddr)));
                            }
                        }
                    }
                    assert forall|v: u64| #[trigger]
                        machine@.pages.contains_key((root, v)) implies machine@.pages[(
                        root,
                        v,
                    )].0 == 0 && exists|k: int|
                        0 <= k < i + 1 && same_page(v, #[trigger] plans@[k].vaddr, 0) by {
                        if same_page(v, plan.vaddr, 0) {
                            assert(same_page(v, plans@[i as int].vaddr, 0));
                        } else {
                            assert(before@.pages.contains_key((root, v)));
                            let k = choose|k: int|
                                0 <= k < i && same_page(v, #[trigger] plans@[k].vaddr, 0);
                            assert(same_page(v, plans@[k].vaddr, 0));
                        }
                    }
                    assert forall|k: (int, u64)| k.0 != root implies {
                        &&& #[trigger] machine@.pages.contains_key(k) == m.pages.contains_key(k)
                        &&& machine@.pages.contains_key(k) ==> machine@.pages[k] == m.pages[k]
                    } by {
                        assert(before@.pages.contains_key(k) == m.pages.contains_key(k));
                    }
                }
            },
        }
    }
    Ok(loads)
}

/// Pages reserved up front for the page tables a domain's mappings will need.
///
/// The surplus is returned after the build, so an over-estimate costs nothing
/// beyond a momentarily larger reservation.
pub const TABLE_RESERVE_PAGES: u64 = 12;

/// The first free thread from `from` on, or [`MAX_THREADS`].
pub open spec fn first_thread(threads: Seq<Thread>, from: int) -> int
    decreases MAX_THREADS - from,
{
    if from >= MAX_THREADS {
        MAX_THREADS as int
    } else if threads[from].state == ThreadState::Empty {
        from
    } else {
        first_thread(threads, from + 1)
    }
}

/// The first free domain from `from` on, or [`MAX_DOMAINS`].
pub open spec fn first_domain(domains: Seq<Domain>, from: int) -> int
    decreases MAX_DOMAINS - from,
{
    if from >= MAX_DOMAINS {
        MAX_DOMAINS as int
    } else if domains[from].state == DomainState::Empty {
        from
    } else {
        first_domain(domains, from + 1)
    }
}

/// Threads among the first `n` places of a domain.
pub open spec fn thread_count(domain: Domain, n: int) -> nat
    decreases n,
{
    if n <= 0 {
        0
    } else if domain.threads@[n - 1] is Some {
        thread_count(domain, n - 1) + 1
    } else {
        thread_count(domain, n - 1)
    }
}

/// A domain that has stopped, been reclaimed, and is named by no capability.
pub open spec fn is_spent(domain: Domain) -> bool {
    &&& domain.state == DomainState::Dead
    &&& domain.refs == 0
    &&& domain.space is None
    &&& thread_count(domain, MAX_THREADS_PER_DOMAIN as int) == 0
}

/// The first spent domain from `from` on, or [`MAX_DOMAINS`].
pub open spec fn first_spent(domains: Seq<Domain>, from: int) -> int
    decreases MAX_DOMAINS - from,
{
    if from >= MAX_DOMAINS {
        MAX_DOMAINS as int
    } else if is_spent(domains[from]) {
        from
    } else {
        first_spent(domains, from + 1)
    }
}

/// Name of a domain as it is recorded.
pub open spec fn name_array(name: Seq<u8>) -> [u8; 32] {
    array_of(
        Seq::new(
            32,
            |i: int|
                if i < name.len() {
                    name[i]
                } else {
                    0
                },
        ),
    )
}

/// Pages a domain is charged while it is built.
pub open spec fn build_pages(image_pages: u64) -> u64 {
    (image_pages + USER_STACK_PAGES + KSTACK_PAGES + TABLE_RESERVE_PAGES) as u64
}

impl MachineModel {
    /// The machine once a spent domain has given up its slot; what waits in
    /// quarantine for it waits on the kernel's account.
    pub open spec fn domain_collected(self, d: int) -> MachineModel {
        MachineModel {
            uses: quarantine_moved(self.uses, Owner::Domain(d as u16), Owner::Kernel),
            ..self
        }.with_domain(d, Domain::empty_spec(self.domains[d].generation))
    }

    /// The slot a new domain takes, [`MAX_DOMAINS`] when there is none, and the
    /// machine with that slot free.
    pub open spec fn domain_slot(self) -> (MachineModel, int) {
        let empty = first_domain(self.domains, 0);
        if empty < MAX_DOMAINS {
            (self, empty)
        } else {
            let spent = first_spent(self.domains, 0);
            if spent < MAX_DOMAINS {
                (self.domain_collected(spent), spent)
            } else {
                (self, MAX_DOMAINS as int)
            }
        }
    }

    /// The scope is charged what a domain needs while it is built.
    pub open spec fn build_charged(self, scope: u16, image_pages: u64) -> MachineModel {
        MachineModel {
            next_id: (self.next_id + 1) as u64,
            ..self.charge(scope, Resource::MemoryPages, build_pages(image_pages)).charge(
                scope,
                Resource::Metadata,
                2,
            )
        }
    }

    /// A scope can be charged what a domain needs while it is built.
    pub open spec fn can_pay(self, scope: u16, image_pages: u64) -> bool {
        &&& self.affords(scope, Resource::MemoryPages, build_pages(image_pages) as int)
        &&& self.affords(scope, Resource::Metadata, 2)
        &&& self.next_id < u64::MAX
    }

    /// A scope can be charged what a domain needs while it is built, and if
    /// another domain creates it a grant and a handle for that one fit too.
    pub open spec fn can_build(self, scope: u16, image_pages: u64, creator: Option<usize>) -> bool {
        &&& self.can_pay(scope, image_pages)
        &&& creator matches Some(c) ==> {
            let paid = self.build_charged(scope, image_pages);
            paid.can_mint(c as int, crate::obj::NO_GRANT) && paid.next_id < u64::MAX - 1
        }
    }

    /// The machine once a slot is reserved for a domain under construction.
    pub open spec fn domain_reserved(
        self,
        d: int,
        name: Seq<u8>,
        image_pages: u64,
        scope: u16,
        managed: bool,
    ) -> MachineModel {
        let paid = self.build_charged(scope, image_pages);
        paid.with_domain(
            d,
            Domain {
                state: DomainState::Building,
                id: self.next_id,
                owner_scope: scope,
                managed,
                name: name_array(name),
                name_len: if name.len() < 32 {
                    name.len() as usize
                } else {
                    32
                },
                reserved_pages: build_pages(image_pages),
                reserved_metadata: 2,
                ..Domain::empty_spec(one_more(self.domains[d].generation))
            },
        )
    }
}

/// Counts the threads of a domain.
pub fn count_threads(domain: &Domain) -> (count: u32)
    ensures
        count == thread_count(*domain, MAX_THREADS_PER_DOMAIN as int),
        count <= MAX_THREADS_PER_DOMAIN,
{
    let mut count: u32 = 0;
    for i in 0..MAX_THREADS_PER_DOMAIN
        invariant
            count <= i,
            count == thread_count(*domain, i as int),
    {
        if domain.threads[i].is_some() {
            count += 1;
        }
    }
    count
}

/// Frees the table slot of a domain that has stopped, been reclaimed, and is
/// named by no capability; returns whether it did.
///
/// The slot keeps its generation, so a handle that outlived the domain names
/// nothing rather than the next occupant.
pub fn collect_dead(machine: &mut Machine, d: usize) -> (freed: bool)
    requires
        old(machine).wf(),
        d < MAX_DOMAINS,
    ensures
        final(machine).wf(),
        final(machine).same_tables(*old(machine)),
        freed == is_spent(old(machine)@.domains[d as int]),
        final(machine)@ == if freed {
            old(machine)@.domain_collected(d as int)
        } else {
            old(machine)@
        },
{
    let domain = machine.domain(d);
    if domain.state != DomainState::Dead || domain.refs != 0 || domain.space.is_some()
        || count_threads(&domain) != 0 {
        return false;
    }
    machine.reassign_quarantine(Owner::Domain(d as u16), Owner::Kernel);
    machine.set_domain(d, Domain::empty(domain.generation));
    true
}

/// Finds a slot for a new domain: a free one, or that of a spent domain.
fn find_domain(machine: &mut Machine) -> (d: usize)
    requires
        old(machine).wf(),
    ensures
        final(machine).wf(),
        final(machine).same_tables(*old(machine)),
        (final(machine)@, d as int) == old(machine)@.domain_slot(),
        d <= MAX_DOMAINS,
        d < MAX_DOMAINS ==> final(machine)@.domains[d as int].state == DomainState::Empty,
{
    for d in 0..MAX_DOMAINS
        invariant
            *machine == *old(machine),
            machine.wf(),
            first_domain(machine@.domains, 0) == first_domain(machine@.domains, d as int),
    {
        if machine.domain(d).state == DomainState::Empty {
            return d;
        }
    }
    proof {
        machine.wf_sized();
    }
    for d in 0..MAX_DOMAINS
        invariant
            machine@ == old(machine)@,
            machine.same_tables(*old(machine)),
            machine.wf(),
            machine@.domains.len() == MAX_DOMAINS,
            first_domain(machine@.domains, 0) == MAX_DOMAINS,
            first_spent(machine@.domains, 0) == first_spent(machine@.domains, d as int),
    {
        if collect_dead(machine, d) {
            return d;
        }
    }
    MAX_DOMAINS
}

/// Finds the first free thread.
fn find_thread(machine: &Machine) -> (t: usize)
    requires
        machine.wf(),
    ensures
        t == first_thread(machine@.threads, 0),
        t <= MAX_THREADS,
{
    let mut t: usize = 0;
    while t < MAX_THREADS && machine.thread(t).state != ThreadState::Empty
        invariant
            machine.wf(),
            t <= MAX_THREADS,
            first_thread(machine@.threads, 0) == first_thread(machine@.threads, t as int),
        decreases MAX_THREADS - t,
    {
        t += 1;
    }
    t
}

/// Records a name, cut to its field.
fn record_name(name: &[u8]) -> (out: [u8; 32])
    ensures
        out == name_array(name@),
{
    let mut out: [u8; 32] = [0; 32];
    let count: usize = if name.len() < 32 {
        name.len()
    } else {
        32
    };
    for i in 0..count
        invariant
            count <= 32,
            count <= name@.len(),
            forall|k: int|
                0 <= k < 32 ==> #[trigger] out@[k] == if k < i {
                    name@[k]
                } else {
                    0
                },
    {
        out[i] = name[i];
    }
    proof {
        assert(out@ =~= Seq::new(
            32,
            |i: int|
                if i < name@.len() {
                    name@[i]
                } else {
                    0
                },
        ));
        array_of_elements(out);
    }
    out
}

/// Whether a scope can be charged what a domain needs while it is built.
fn can_pay(machine: &Machine, scope: u16, image_pages: u64) -> (able: bool)
    requires
        machine.wf(),
        scope < MAX_SCOPES,
        image_pages <= elf::MAX_IMAGE_PAGES,
    ensures
        able == machine@.can_pay(scope, image_pages),
{
    let pages: u64 = image_pages + USER_STACK_PAGES + KSTACK_PAGES + TABLE_RESERVE_PAGES;
    machine.has_id() && machine.affords(scope, Resource::MemoryPages, pages) && machine.affords(
        scope,
        Resource::Metadata,
        2,
    )
}

/// Whether two pages of a plan are the same.
fn has_repeat(plans: &Vec<PagePlan>) -> (found: bool)
    requires
        forall|i: int| 0 <= i < plans@.len() ==> plannable(#[trigger] plans@[i]),
    ensures
        found == plan_repeats(plans@),
{
    for j in 0..plans.len()
        invariant
            forall|i: int| 0 <= i < plans@.len() ==> plannable(#[trigger] plans@[i]),
            forall|x: int, y: int|
                0 <= x < y < j ==> !same_page(
                    (#[trigger] plans@[y]).vaddr,
                    (#[trigger] plans@[x]).vaddr,
                    0,
                ),
    {
        for i in 0..j
            invariant
                j < plans@.len(),
                forall|k: int| 0 <= k < plans@.len() ==> plannable(#[trigger] plans@[k]),
                forall|x: int|
                    0 <= x < i ==> !same_page(
                        plans@[j as int].vaddr,
                        (#[trigger] plans@[x]).vaddr,
                        0,
                    ),
        {
            proof {
                low_pages_are_numbered(plans@[j as int].vaddr, plans@[i as int].vaddr);
            }
            if plans[j].vaddr / 0x1000 == plans[i].vaddr / 0x1000 {
                return true;
            }
        }
    }
    false
}

/// Charges a scope what a domain needs while it is built and reserves its slot,
/// or changes nothing.
///
/// Everything the domain will hold is reserved before a frame is taken: a domain
/// that does not fit inside its scope is refused, not built and then charged.
fn reserve_domain(
    machine: &mut Machine,
    d: usize,
    name: &[u8],
    image_pages: u64,
    scope: u16,
    managed: bool,
    creator: Option<usize>,
) -> (done: bool)
    requires
        old(machine).wf(),
        d < MAX_DOMAINS,
        scope < MAX_SCOPES,
        image_pages <= elf::MAX_IMAGE_PAGES,
        creator matches Some(c) ==> c < MAX_DOMAINS && c != d,
        old(machine)@.domains[d as int].space is None,
    ensures
        final(machine).wf(),
        final(machine).same_tables(*old(machine)),
        done == old(machine)@.can_build(scope, image_pages, creator),
        final(machine)@ == if done {
            old(machine)@.domain_reserved(d as int, name@, image_pages, scope, managed)
        } else {
            old(machine)@
        },
{
    let ghost m = machine@;
    let pages: u64 = image_pages + USER_STACK_PAGES + KSTACK_PAGES + TABLE_RESERVE_PAGES;
    if !can_pay(machine, scope, image_pages) {
        return false;
    }
    proof {
        machine.wf_scopes();
        room_is_separate(
            m.scopes,
            scope as int,
            Resource::Metadata,
            2,
            scope as int,
            Resource::MemoryPages,
            pages as int,
        );
    }
    machine.charge(scope, Resource::MemoryPages, pages);
    let ghost paid = machine@;
    machine.charge(scope, Resource::Metadata, 2);
    let fits = match creator {
        None => true,
        Some(c) => machine.next_id < u64::MAX - 2 && crate::api::can_mint(
            machine,
            c,
            crate::obj::NO_GRANT,
        ),
    };
    if !fits {
        proof {
            machine.wf_scopes();
            scope::charged_keeps_tree(
                m.scopes,
                scope as int,
                Resource::MemoryPages,
                pages as int,
            );
            release_undoes_reserve(paid.scopes, scope as int, Resource::Metadata, 2);
            release_undoes_reserve(m.scopes, scope as int, Resource::MemoryPages, pages);
        }
        machine.uncharge(scope, Resource::Metadata, 2);
        machine.uncharge(scope, Resource::MemoryPages, pages);
        assert(machine@ =~= m);
        return false;
    }
    let id: u64 = match machine.take_id() {
        Some(id) => id,
        None => 0,
    };
    let generation: u32 = machine.domain(d).generation.saturating_add(1);
    let recorded = record_name(name);
    machine.set_domain(
        d,
        Domain {
            state: DomainState::Building,
            id,
            owner_scope: scope,
            managed,
            name: recorded,
            name_len: if name.len() < 32 {
                name.len()
            } else {
                32
            },
            reserved_pages: pages,
            reserved_metadata: 2,
            ..Domain::empty(generation)
        },
    );
    true
}

impl MachineModel {
    /// The machine once a thread stands ready to be activated.
    pub open spec fn thread_made(
        self,
        t: int,
        d: int,
        kslot: int,
        entry: u64,
        stack: u64,
        argument: u64,
    ) -> MachineModel {
        let domain = self.domains[d];
        MachineModel {
            next_id: if self.next_id < u64::MAX {
                (self.next_id + 1) as u64
            } else {
                u64::MAX
            },
            scopes: parallelised(self.scopes, domain.owner_scope as int, true),
            ..self
        }.with_thread(
            t,
            Thread {
                state: ThreadState::Held,
                id: if self.next_id < u64::MAX {
                    self.next_id
                } else {
                    0
                },
                domain: d as u16,
                domain_generation: domain.generation,
                owner_scope: domain.owner_scope,
                effective_scope: domain.owner_scope,
                parallelism_scope: Some(domain.owner_scope),
                kstack_slot: kslot as u16,
                kstack_top: stack_top(kslot),
                entry,
                stack_top: stack,
                argument,
                ..Thread::empty_spec()
            },
        )
    }

    /// The machine once a domain has been built, its pages and frames apart.
    pub open spec fn domain_built(
        self,
        d: int,
        t: int,
        root: Frame,
        segments: u32,
        image_pages: u64,
        entry: u64,
    ) -> MachineModel {
        let kslot = first_kstack(self.kstacks, 0);
        let threaded = self.with_kstack(kslot, true).thread_made(
            t,
            d,
            kslot,
            entry,
            USER_STACK_TOP,
            0,
        );
        threaded.with_domain(
            d,
            Domain {
                space: Some(root),
                segments,
                stack_mapped: true,
                entry,
                image_pages,
                threads: array_of(self.domains[d].threads@.update(0, Some(t as u16))),
                ..self.domains[d]
            },
        )
    }
}

/// Writes a fresh thread into an empty slot, held until activation, and counts
/// it in the parallelism of its scope.
///
/// A slot is reused across domains: nothing of the previous occupant is left.
fn make_thread(
    machine: &mut Machine,
    t: usize,
    d: usize,
    kslot: usize,
    top: u64,
    entry: u64,
    stack: u64,
    argument: u64,
)
    requires
        old(machine).wf(),
        t < MAX_THREADS,
        d < MAX_DOMAINS,
        kslot < MAX_THREADS,
        top == stack_top(kslot as int),
    ensures
        final(machine).wf(),
        final(machine).same_tables(*old(machine)),
        final(machine)@ == old(machine)@.thread_made(
            t as int,
            d as int,
            kslot as int,
            entry,
            stack,
            argument,
        ),
{
    let id: u64 = match machine.take_id() {
        Some(id) => id,
        None => 0,
    };
    let domain = machine.domain(d);
    let owner: u16 = domain.owner_scope;
    machine.count_parallelism(owner, true);
    machine.set_thread(
        t,
        Thread {
            state: ThreadState::Held,
            id,
            domain: d as u16,
            domain_generation: domain.generation,
            owner_scope: owner,
            effective_scope: owner,
            parallelism_scope: Some(owner),
            kstack_slot: kslot as u16,
            kstack_top: top,
            entry,
            stack_top: stack,
            argument,
            ..Thread::empty()
        },
    );
}

/// Frames either keep their use, or were free and went to the domain or the
/// kernel, or went from them, or from serving as tables, into quarantine.
pub open spec fn build_moved(before: Seq<FrameUse>, after: Seq<FrameUse>, owner: Owner) -> bool {
    &&& after.len() == before.len()
    &&& forall|i: int|
        0 <= i < before.len() ==> {
            ||| #[trigger] after[i] == before[i]
            ||| before[i] == FrameUse::Free && (after[i] == FrameUse::Table(owner) || after[i]
                == FrameUse::Held(owner) || after[i] == FrameUse::Retired(owner) || after[i]
                == FrameUse::Table(Owner::Kernel) || after[i] == FrameUse::Held(Owner::Kernel)
                || after[i] == FrameUse::Retired(Owner::Kernel))
            ||| (before[i] is Table || before[i] == FrameUse::Held(owner)) && after[i]
                == FrameUse::Retired(owner)
        }
}

/// Why a domain whose reservation was made could still not be built: frames, a
/// page that two parts of the image ask for, or a kernel stack slot.
pub open spec fn build_refused(
    machine: Machine,
    segments: Seq<elf::Segment>,
    e: CreateError,
) -> bool {
    ||| e == CreateError::OutOfMemory && machine.frames.free_frames() < 4 * image_plan(
        segments,
    ).len() + 1 + 4 * KSTACK_PAGES
    ||| e == CreateError::Mapping(MapError::AlreadyMapped) && plan_repeats(image_plan(segments))
    ||| e != CreateError::OutOfMemory && stack_refused(machine, e)
}

/// Maps the image and the stack of a domain in an empty space, gives it a kernel
/// stack and makes its first thread. A failure leaves a domain without a space.
fn build(machine: &mut Machine, d: usize, t: usize, image: &elf::Image, Ghost(length): Ghost<int>) -> (
    result: Result<Vec<PageLoad>, CreateError>)
    requires
        old(machine).wf(),
        d < MAX_DOMAINS,
        t < MAX_THREADS,
        old(machine)@.domains[d as int].space is None,
        old(machine)@.domains[d as int].state != DomainState::Empty,
        old(machine)@.kernel_space is Some,
        image.segment_count <= elf::MAX_SEGMENTS,
        elf::segments_are_sound(image.loaded(), length),
        length <= usize::MAX,
    ensures
        final(machine).wf(),
        build_moved(old(machine)@.uses, final(machine)@.uses, Owner::Domain(d as u16)),
        match result {
            Ok(loads) => {
                let root = final(machine)@.domains[d as int].space->0;
                &&& loads@.len() == image_plan(image.loaded()).len()
                &&& final(machine).pages_are_open(d as int)
                &&& held_is_mapped(
                    old(machine)@.uses,
                    final(machine)@.uses,
                    final(machine)@.pages,
                    root.number as int,
                    Owner::Domain(d as u16),
                )
                &&& loads_are_fresh(
                    old(machine)@.uses,
                    final(machine).frames,
                    loads@,
                    Owner::Domain(d as u16),
                )
                &&& stack_is_mapped(
                    *final(machine),
                    first_kstack(old(machine)@.kstacks, 0),
                    KSTACK_PAGES as int,
                )
                &&& stack_is_fresh(
                    old(machine)@.uses,
                    *final(machine),
                    first_kstack(old(machine)@.kstacks, 0),
                    KSTACK_PAGES as int,
                )
                &&& final(machine)@ == (MachineModel {
                    uses: final(machine)@.uses,
                    pages: final(machine)@.pages,
                    ..old(machine)@.domain_built(
                        d as int,
                        t as int,
                        root,
                        image.segment_count as u32,
                        image.pages,
                        image.entry,
                    )
                })
                &&& plan_holds(
                    old(machine)@.pages,
                    final(machine)@.pages,
                    root.number as int,
                    image_plan(image.loaded()),
                    loads@,
                    loads@.len() as int,
                )
            },
            Err(e) => {
                &&& build_refused(*old(machine), image.loaded(), e)
                &&& frames_returned(old(machine)@.uses, final(machine)@.uses, d as int)
                &&& final(machine)@ == (MachineModel {
                    uses: final(machine)@.uses,
                    ..old(machine)@
                })
            },
        },
{
    let ghost m = machine@;
    let ghost first = *machine;
    proof {
        first.wf_sized();
        first.no_space_no_table(d as int);
    }
    match machine.new_space(d) {
        Err(error) => {
            return Err(CreateError::from(error));
        },
        Ok(()) => {},
    }
    let ghost root = machine@.domains[d as int].space->0;
    let plans = plan_image(image, Ghost(length));
    let ghost spaced = *machine;
    let loads = match map_plan(machine, d, &plans) {
        Err(error) => {
            let ghost partial = machine@;
            machine.drop_space(d);
            proof {
                space_forgotten(m, partial, machine@, d as int, root);
                taken_frames_return(
                    m.uses,
                    spaced@.uses,
                    partial.uses,
                    partial,
                    machine@.uses,
                    d as int,
                );
            }
            return Err(CreateError::from(error));
        },
        Ok(loads) => loads,
    };
    let ghost mapped = *machine;
    let (kslot, top): (usize, u64) = match allocate_kernel_stack(machine) {
        Err(error) => {
            let ghost partial = machine@;
            machine.drop_space(d);
            proof {
                space_forgotten(m, partial, machine@, d as int, root);
                taken_frames_return(
                    m.uses,
                    spaced@.uses,
                    mapped@.uses,
                    partial,
                    machine@.uses,
                    d as int,
                );
                if error != CreateError::OutOfMemory {
                    stack_refused_before(first, spaced, mapped, error);
                }
            }
            return Err(error);
        },
        Ok(made) => made,
    };
    let ghost stacked = *machine;
    make_thread(machine, t, d, kslot, top, image.entry, USER_STACK_TOP, 0);
    let domain = machine.domain(d);
    let mut threads = domain.threads;
    threads[0] = Some(t as u16);
    proof {
        array_of_elements(threads);
    }
    machine.set_domain(
        d,
        Domain {
            segments: image.segment_count as u32,
            stack_mapped: true,
            entry: image.entry,
            image_pages: image.pages,
            threads,
            ..domain
        },
    );
    proof {
        machine.every_page_is_open(d as int);
        first_kstack_is_free(m.kstacks, 0);
        machine.wf_sized();
        taken_stacks_are_mapped(*machine, kslot as int);
        mapped.frames_are_addressable(-1);
        stacked.frames_are_addressable(-1);
        loads_stay_fresh(
            spaced@.uses,
            mapped.frames,
            stacked.frames,
            loads@,
            Owner::Domain(d as u16),
        );
        loads_stay_fresh(
            spaced@.uses,
            stacked.frames,
            machine.frames,
            loads@,
            Owner::Domain(d as u16),
        );
        assert forall|i: int| 0 <= i < loads@.len() implies is_fresh(
            m.uses,
            machine.frames,
            (#[trigger] loads@[i]).frame,
            Owner::Domain(d as u16),
        ) by {
            assert(is_fresh(
                spaced@.uses,
                machine.frames,
                loads@[i].frame,
                Owner::Domain(d as u16),
            ));
        }
        reveal(stack_is_fresh);
        stack_stays_fresh(mapped@.uses, stacked, *machine, kslot as int, KSTACK_PAGES as int);
        assert forall|page: int| 0 <= page < KSTACK_PAGES implies m.uses[#[trigger] stack_frame(
            *machine,
            kslot as int,
            page,
        )] == FrameUse::Free by {
            let f = stack_frame(*machine, kslot as int, page);
            assert(mapped@.uses[f] == FrameUse::Free);
        }
        let owner = Owner::Domain(d as u16);
        assert forall|i: int|
            0 <= i < m.uses.len() && #[trigger] machine@.uses[i] == FrameUse::Held(owner)
                && m.uses[i] != FrameUse::Held(owner) implies is_mapped_somewhere(
            machine@.pages,
            root.number as int,
            i,
        ) by {
            assert(mapped@.uses[i] == machine@.uses[i]);
            assert(spaced@.uses[i] != FrameUse::Held(owner));
            assert(is_mapped_somewhere(mapped@.pages, root.number as int, i));
        }
    }
    Ok(loads)
}

/// Taking the space of a partial domain down leaves the machine as it was
/// before, what frames are used for apart.
proof fn space_forgotten(
    before: MachineModel,
    partial: MachineModel,
    after: MachineModel,
    d: int,
    root: Frame,
)
    requires
        before.sized(),
        0 <= d < MAX_DOMAINS,
        before.domains[d].space is None,
        partial.domains == before.domains.update(
            d,
            Domain { space: Some(root), ..before.domains[d] },
        ),
        partial == (MachineModel {
            uses: partial.uses,
            pages: partial.pages,
            domains: partial.domains,
            ..before
        }),
        forall|v: u64| !(#[trigger] before.pages.contains_key((root.number as int, v))),
        forall|k: (int, u64)|
            k.0 != root.number ==> {
                &&& #[trigger] partial.pages.contains_key(k) == before.pages.contains_key(k)
                &&& partial.pages.contains_key(k) ==> partial.pages[k] == before.pages[k]
            },
        after == (MachineModel {
            uses: after.uses,
            pages: without_space(partial.pages, root.number as int),
            ..partial.with_domain(d, Domain { space: None, ..partial.domains[d] })
        }),
    ensures
        after == (MachineModel { uses: after.uses, ..before }),
{
    assert forall|k: (int, u64)| #[trigger]
        after.pages.contains_key(k) == before.pages.contains_key(k) && (after.pages.contains_key(
        k,
    ) ==> after.pages[k] == before.pages[k]) by {
        if k.0 == root.number {
            assert(k == (root.number as int, k.1));
            assert(!before.pages.contains_key((root.number as int, k.1)));
        } else {
            assert(partial.pages.contains_key(k) == before.pages.contains_key(k));
        }
    }
    assert(after.pages =~= before.pages);
    assert(after.domains =~= before.domains);
}

/// What keeps a kernel stack from being made after the image was mapped kept it
/// before.
proof fn stack_refused_before(first: Machine, spaced: Machine, mapped: Machine, e: CreateError)
    requires
        first@.kernel_space is Some,
        spaced.kernel_as(first),
        mapped.kernel_as(spaced),
        spaced.kernel_space == first.kernel_space,
        mapped@.kstacks == first@.kstacks,
        stack_refused(mapped, e),
        e != CreateError::OutOfMemory,
    ensures
        stack_refused(first, e),
{
}

/// A domain that was created.
pub struct Created {
    /// Its slot.
    pub index: usize,
    /// The bytes of the image to copy to its frames, one entry per page.
    pub loads: Vec<PageLoad>,
}

impl MachineModel {
    /// The machine once the charge for a domain is what it holds: the pages it
    /// did not need go back to its scope.
    pub open spec fn charge_settled(self, d: int, charged: u64) -> MachineModel {
        let domain = self.domains[d];
        let s = domain.owner_scope as int;
        let actual = (charged + KSTACK_PAGES) as u64;
        let surplus = minus(domain.reserved_pages, actual);
        let counted = self.with_scope(
            s,
            Scope { threads: one_more(self.scopes[s].threads), ..self.scopes[s] },
        ).uncharge(domain.owner_scope, Resource::MemoryPages, surplus);
        counted.with_domain(
            d,
            Domain { reserved_pages: minus(domain.reserved_pages, surplus), ..domain },
        )
    }
}

/// Why a domain cannot even be reserved, before a slot is looked for.
pub open spec fn create_fault(m: MachineModel, image: Seq<u8>, scope: u16) -> Option<CreateError> {
    match elf::judge(image) {
        Err(e) => Some(CreateError::Image(e)),
        Ok(_) => if !m.is_open(scope) {
            Some(CreateError::ScopeClosed)
        } else if !has_slot(m.scopes, scope as int) {
            Some(CreateError::LimitExhausted)
        } else {
            None
        },
    }
}

/// What creating a domain leaves, once a slot has been found and the machine is
/// `m`.
pub open spec fn created(
    m: Machine,
    d: int,
    name: Seq<u8>,
    image: Seq<u8>,
    scope: u16,
    managed: bool,
    creator: Option<usize>,
    after: Machine,
    result: Result<Created, CreateError>,
) -> bool {
    let segments = elf::judge(image)->Ok_0;
    let pages = elf::footprint(segments) as u64;
    let t = first_thread(m@.threads, 0);
    let reserved = m@.domain_reserved(d, name, pages, scope, managed);
    if t == MAX_THREADS {
        &&& result matches Err(e) && e == CreateError::ThreadTableFull
        &&& after@ == m@
    } else if !m@.can_pay(scope, pages) {
        &&& result matches Err(e) && e == CreateError::LimitExhausted
        &&& after@ == m@
    } else if !m@.can_build(scope, pages, creator) {
        &&& result matches Err(e) && e == if plan_repeats(image_plan(segments)) {
            CreateError::Mapping(MapError::AlreadyMapped)
        } else {
            CreateError::LimitExhausted
        }
        &&& after@ == m@
    } else {
        &&& build_moved(m@.uses, after@.uses, Owner::Domain(d as u16))
        &&& match result {
            Ok(made) => {
                let root = after@.domains[d].space->0;
                let built = reserved.domain_built(
                    d,
                    t,
                    root,
                    segments.len() as u32,
                    pages,
                    crate::elf_header::file_header(image).entry,
                );
                &&& made.index == d
                &&& made.loads@.len() == image_plan(segments).len()
                &&& held_is_mapped(
                    m@.uses,
                    after@.uses,
                    after@.pages,
                    root.number as int,
                    Owner::Domain(d as u16),
                )
                &&& loads_are_fresh(
                    m@.uses,
                    after.frames,
                    made.loads@,
                    Owner::Domain(d as u16),
                )
                &&& stack_is_mapped(
                    after,
                    first_kstack(m@.kstacks, 0),
                    KSTACK_PAGES as int,
                )
                &&& stack_is_fresh(
                    m@.uses,
                    after,
                    first_kstack(m@.kstacks, 0),
                    KSTACK_PAGES as int,
                )
                &&& exists|charged: u64|
                    {
                        &&& charged == count_use(
                            after@.uses,
                            FrameUse::Held(Owner::Domain(d as u16)),
                        ) + count_use(after@.uses, FrameUse::Table(Owner::Domain(d as u16)))
                        &&& after@ == (MachineModel {
                            uses: after@.uses,
                            pages: after@.pages,
                            ..#[trigger] built.charge_settled(d, charged)
                        })
                    }
                &&& plan_holds(
                    m@.pages,
                    after@.pages,
                    root.number as int,
                    image_plan(segments),
                    made.loads@,
                    made.loads@.len() as int,
                )
            },
            Err(e) => {
                &&& build_refused(m, segments, e)
                &&& frames_returned(m@.uses, after@.uses, d)
                &&& after@ == (MachineModel {
                    uses: after@.uses,
                    next_id: (m@.next_id + 1) as u64,
                    ..m@.with_domain(
                        d,
                        Domain::empty_spec(one_more(m@.domains[d].generation)),
                    )
                })
            },
        }
    }
}

/// What creating a domain leaves, and what it answers.
pub open spec fn creation(
    before: Machine,
    name: Seq<u8>,
    image: Seq<u8>,
    scope: u16,
    managed: bool,
    creator: Option<usize>,
    after: Machine,
    result: Result<Created, CreateError>,
) -> bool {
    match create_fault(before@, image, scope) {
        Some(e) => {
            &&& result matches Err(error) && error == e
            &&& after@ == before@
        },
        None => {
            let (m, d) = before@.domain_slot();
            if d == MAX_DOMAINS {
                &&& result matches Err(e) && e == CreateError::DomainTableFull
                &&& after@ == before@
            } else {
                exists|mid: Machine|
                    mid.wf() && mid@ == m && mid.same_tables(before) && #[trigger] created(
                        mid,
                        d,
                        name,
                        image,
                        scope,
                        managed,
                        creator,
                        after,
                        result,
                    )
            }
        },
    }
}

/// Creates a domain from a validated image and leaves it in `Building`.
///
/// `creator` names the domain that will be given a handle on it, if one will. A
/// failure at any point leaves no domain and no charge behind.
pub fn create_in(
    machine: &mut Machine,
    name: &[u8],
    image: &[u8],
    scope: u16,
    managed: bool,
    creator: Option<usize>,
) -> (result: Result<Created, CreateError>)
    requires
        old(machine).wf(),
        old(machine)@.kernel_space is Some,
        scope < MAX_SCOPES,
        image@.len() <= usize::MAX,
        creator matches Some(c) ==> c < MAX_DOMAINS && old(machine)@.domains[c as int].state
            == DomainState::Runnable,
    ensures
        final(machine).wf(),
        creation(
            *old(machine),
            name@,
            image@,
            scope,
            managed,
            creator,
            *final(machine),
            result,
        ),
{
    let parsed = match elf::parse_user_image(image) {
        Err(reject) => {
            return Err(CreateError::Image(reject));
        },
        Ok(parsed) => parsed,
    };
    proof {
        elf::accepted_image_is_sound(image@);
    }
    if machine.scope(scope as usize).state != scope::State::Open {
        return Err(CreateError::ScopeClosed);
    }
    // A domain arrives with a thread, and that thread will charge this scope.
    if !machine.has_parallelism(scope) {
        return Err(CreateError::LimitExhausted);
    }
    let ghost first = *machine;
    proof {
        first.wf_sized();
        first_spent_is_spent(first@.domains, 0);
    }
    let d: usize = find_domain(machine);
    if d == MAX_DOMAINS {
        return Err(CreateError::DomainTableFull);
    }
    let ghost mid = *machine;
    let slot = machine.domain(d);
    proof {
        machine.wf_sized();
        if creator is Some {
            assert(mid@.domains[d as int].state == DomainState::Empty);
        }
    }
    let result = create_at(machine, d, name, image, &parsed, scope, managed, creator);
    proof {
        assert(mid.wf() && mid@ == first@.domain_slot().0 && mid.same_tables(first));
        assert(d == first@.domain_slot().1);
        assert(created(
            mid,
            first@.domain_slot().1,
            name@,
            image@,
            scope,
            managed,
            creator,
            *machine,
            result,
        ));
        assert(first == *old(machine));
        assert(create_fault(first@, image@, scope) is None);
    }
    result
}

/// Creates a domain in a free slot.
#[verifier::spinoff_prover]
#[verifier::rlimit(60)]
fn create_at(
    machine: &mut Machine,
    d: usize,
    name: &[u8],
    image: &[u8],
    parsed: &elf::Image,
    scope: u16,
    managed: bool,
    creator: Option<usize>,
) -> (result: Result<Created, CreateError>)
    requires
        old(machine).wf(),
        old(machine)@.kernel_space is Some,
        d < MAX_DOMAINS,
        old(machine)@.domains[d as int].space is None,
        scope < MAX_SCOPES,
        image@.len() <= usize::MAX,
        creator matches Some(c) ==> c < MAX_DOMAINS && c != d,
        elf::judge(image@) is Ok,
        parsed.segment_count <= elf::MAX_SEGMENTS,
        parsed.segment_count == elf::judge(image@)->Ok_0.len(),
        parsed.loaded() == elf::judge(image@)->Ok_0,
        parsed.pages == elf::footprint(elf::judge(image@)->Ok_0),
        parsed.pages <= elf::MAX_IMAGE_PAGES,
        parsed.entry == crate::elf_header::file_header(image@).entry,
        elf::segments_are_sound(parsed.loaded(), image@.len() as int),
    ensures
        final(machine).wf(),
        created(
            *old(machine),
            d as int,
            name@,
            image@,
            scope,
            managed,
            creator,
            *final(machine),
            result,
        ),
{
    let ghost mid = *machine;
    let t: usize = find_thread(machine);
    if t == MAX_THREADS {
        return Err(CreateError::ThreadTableFull);
    }
    let payable = can_pay(machine, scope, parsed.pages);
    if !reserve_domain(machine, d, name, parsed.pages, scope, managed, creator) {
        if payable && has_repeat(&plan_image(parsed, Ghost(image@.len() as int))) {
            return Err(CreateError::Mapping(MapError::AlreadyMapped));
        }
        return Err(CreateError::LimitExhausted);
    }
    let ghost reserved = *machine;
    proof {
        mid.wf_sized();
        reserved.wf_sized();
    }
    match build(machine, d, t, parsed, Ghost(image@.len() as int)) {
        Err(error) => {
            undo_build(
                machine,
                d,
                scope,
                parsed.pages,
                Ghost(mid),
                Ghost(reserved),
                Ghost(name@),
                Ghost(managed),
            );
            proof {
                build_refused_before(mid, reserved, parsed.loaded(), error);
            }
            Err(error)
        },
        Ok(loads) => {
            let ghost built = machine@;
            let ghost standing = *machine;
            let charged: u64 = settle_charge(machine, d);
            let made = Created { index: d, loads };
            proof {
                let root = built.domains[d as int].space->0;
                let plain = reserved@.domain_built(
                    d as int,
                    t as int,
                    root,
                    parsed.segment_count as u32,
                    parsed.pages,
                    parsed.entry,
                );
                settling_is_separate(plain, built.uses, built.pages, d as int, charged);
                assert(machine@ == (MachineModel {
                    uses: machine@.uses,
                    pages: machine@.pages,
                    ..plain.charge_settled(d as int, charged)
                }));
                assert(machine@.domains[d as int].space == Some(root));
                standing.frames_are_addressable(-1);
                loads_stay_fresh(
                    mid@.uses,
                    standing.frames,
                    machine.frames,
                    made.loads@,
                    Owner::Domain(d as u16),
                );
                stack_stays_fresh(
                    mid@.uses,
                    standing,
                    *machine,
                    first_kstack(mid@.kstacks, 0),
                    KSTACK_PAGES as int,
                );
            }
            Ok(made)
        },
    }
}

/// Settling the charge has nothing to do with pages and frames.
proof fn settling_is_separate(
    m: MachineModel,
    uses: Seq<FrameUse>,
    pages: Map<(int, u64), (nat, u64)>,
    d: int,
    charged: u64,
)
    ensures
        (MachineModel { uses, pages, ..m }).charge_settled(d, charged) == (MachineModel {
            uses,
            pages,
            ..m.charge_settled(d, charged)
        }),
{
}

/// Returns the pages a new domain did not need to its scope; returns how many
/// frames it holds.
fn settle_charge(machine: &mut Machine, d: usize) -> (charged: u64)
    requires
        old(machine).wf(),
        d < MAX_DOMAINS,
    ensures
        final(machine).wf(),
        final(machine).same_tables(*old(machine)),
        charged == count_use(
            old(machine)@.uses,
            FrameUse::Held(Owner::Domain(d as u16)),
        ) + count_use(old(machine)@.uses, FrameUse::Table(Owner::Domain(d as u16))),
        final(machine)@ == old(machine)@.charge_settled(d as int, charged),
{
    let charged: u64 = machine.charged(Owner::Domain(d as u16));
    let domain = machine.domain(d);
    let scope: u16 = domain.owner_scope;
    let node = machine.scope(scope as usize);
    machine.set_scope(scope as usize, Scope { threads: node.threads.saturating_add(1), ..node });
    let surplus: u64 = domain.reserved_pages.saturating_sub(charged + KSTACK_PAGES);
    machine.uncharge(scope, Resource::MemoryPages, surplus);
    machine.set_domain(
        d,
        Domain { reserved_pages: domain.reserved_pages.saturating_sub(surplus), ..domain },
    );
    charged
}

/// Gives everything back that was reserved for a domain that could not be built.
fn undo_build(
    machine: &mut Machine,
    d: usize,
    scope: u16,
    image_pages: u64,
    Ghost(mid): Ghost<Machine>,
    Ghost(reserved): Ghost<Machine>,
    Ghost(name): Ghost<Seq<u8>>,
    Ghost(managed): Ghost<bool>,
)
    requires
        old(machine).wf(),
        mid.wf(),
        d < MAX_DOMAINS,
        scope < MAX_SCOPES,
        image_pages <= elf::MAX_IMAGE_PAGES,
        mid@.can_build(scope, image_pages, None),
        reserved@ == mid@.domain_reserved(d as int, name, image_pages, scope, managed),
        old(machine)@ == (MachineModel { uses: old(machine)@.uses, ..reserved@ }),
    ensures
        final(machine).wf(),
        final(machine)@ == (MachineModel {
            uses: old(machine)@.uses,
            next_id: (mid@.next_id + 1) as u64,
            ..mid@.with_domain(
                d as int,
                Domain::empty_spec(one_more(mid@.domains[d as int].generation)),
            )
        }),
{
    proof {
        mid.wf_sized();
        mid.wf_scopes();
        charges_undone(mid@, scope, image_pages);
    }
    let pages: u64 = image_pages + USER_STACK_PAGES + KSTACK_PAGES + TABLE_RESERVE_PAGES;
    let domain = machine.domain(d);
    machine.uncharge(scope, Resource::Metadata, 2);
    machine.uncharge(scope, Resource::MemoryPages, pages);
    machine.set_domain(d, Domain::empty(domain.generation));
    assert(machine@.domains =~= mid@.domains.update(
        d as int,
        Domain::empty_spec(one_more(mid@.domains[d as int].generation)),
    ));
}

/// What was charged for a build and given back leaves the scopes as they were.
proof fn charges_undone(m: MachineModel, scope: u16, image_pages: u64)
    requires
        crate::scope::scopes_wf(m.scopes),
        scope < MAX_SCOPES,
        m.can_build(scope, image_pages, None),
    ensures
        m.build_charged(scope, image_pages).uncharge(scope, Resource::Metadata, 2).uncharge(
            scope,
            Resource::MemoryPages,
            build_pages(image_pages),
        ).scopes == m.scopes,
{
    let pages = build_pages(image_pages);
    let paid = m.charge(scope, Resource::MemoryPages, pages);
    room_is_separate(
        m.scopes,
        scope as int,
        Resource::Metadata,
        2,
        scope as int,
        Resource::MemoryPages,
        pages as int,
    );
    scope::charged_keeps_tree(m.scopes, scope as int, Resource::MemoryPages, pages as int);
    release_undoes_reserve(paid.scopes, scope as int, Resource::Metadata, 2);
    release_undoes_reserve(m.scopes, scope as int, Resource::MemoryPages, pages);
}

/// What keeps a reserved domain from being built kept it before the reservation.
proof fn build_refused_before(
    mid: Machine,
    reserved: Machine,
    segments: Seq<elf::Segment>,
    e: CreateError,
)
    requires
        reserved.same_tables(mid),
        reserved@.uses == mid@.uses,
        reserved@.kstacks == mid@.kstacks,
        reserved@.kernel_space == mid@.kernel_space,
        build_refused(reserved, segments, e),
    ensures
        build_refused(mid, segments, e),
{
}

proof fn first_spent_is_spent(domains: Seq<Domain>, from: int)
    requires
        0 <= from,
    ensures
        first_spent(domains, from) < MAX_DOMAINS ==> {
            &&& from <= first_spent(domains, from)
            &&& is_spent(domains[first_spent(domains, from)])
        },
    decreases MAX_DOMAINS - from,
{
    if from < MAX_DOMAINS && !is_spent(domains[from]) {
        first_spent_is_spent(domains, from + 1);
    }
}

/// The first thread of a domain from place `from` on.
pub open spec fn thread_from(domain: Domain, from: int) -> Option<u16>
    decreases MAX_THREADS_PER_DOMAIN - from,
{
    if from >= MAX_THREADS_PER_DOMAIN {
        None
    } else if domain.threads@[from] is Some {
        domain.threads@[from]
    } else {
        thread_from(domain, from + 1)
    }
}

/// The entry permits user code to be executed.
pub open spec fn is_executable(entry: u64) -> bool {
    entry & 0x8000_0000_0000_0000 == 0 && entry & 4 != 0
}

impl MachineModel {
    /// Why a domain is not activated, or nothing when it is.
    pub open spec fn activation_fault(self, d: int) -> Option<ActivationRefusal> {
        let domain = self.domains[d];
        if d >= MAX_DOMAINS || domain.state != DomainState::Building {
            Some(ActivationRefusal::NotBuilding)
        } else if domain.space is None {
            Some(ActivationRefusal::NoAddressSpace)
        } else if domain.segments == 0 {
            Some(ActivationRefusal::NoSegments)
        } else if !domain.stack_mapped {
            Some(ActivationRefusal::NoStack)
        } else if !(thread_from(domain, 0) matches Some(t) && self.threads[t as int].kstack_top
            != 0) {
            Some(ActivationRefusal::NoThread)
        } else if !(self.translated(d, domain.entry) matches Some(e) && is_executable(e)) {
            Some(ActivationRefusal::EntryNotExecutable)
        } else if domain.managed && domain.fault_endpoint is None {
            Some(ActivationRefusal::NoFaultChannel)
        } else if !self.is_open(domain.owner_scope) {
            Some(ActivationRefusal::ScopeClosed)
        } else {
            None
        }
    }

    /// The machine once the threads in the first `n` places of a domain may be
    /// scheduled.
    pub open spec fn threads_started(self, d: int, n: nat) -> MachineModel
        decreases n,
    {
        if n == 0 {
            self
        } else {
            let before = self.threads_started(d, (n - 1) as nat);
            match self.domains[d].threads@[n - 1] {
                None => before,
                Some(t) => before.with_thread(
                    t as int,
                    Thread { state: ThreadState::Ready, ..before.threads[t as int] },
                ),
            }
        }
    }

    /// The machine once a domain may execute.
    pub open spec fn activated(self, d: int) -> MachineModel {
        self.with_domain(
            d,
            Domain { state: DomainState::Runnable, ..self.domains[d] },
        ).threads_started(d, MAX_THREADS_PER_DOMAIN as nat)
    }

    /// The machine once a thread will not run again; its place in the
    /// parallelism of its scope is free.
    pub open spec fn thread_stopped(self, t: int) -> MachineModel {
        let thread = self.threads[t];
        let left = match thread.parallelism_scope {
            Some(s) => MachineModel {
                scopes: parallelised(self.scopes, s as int, false),
                ..self
            },
            None => self,
        };
        left.with_thread(
            t,
            Thread {
                state: ThreadState::Dead,
                wait: Wait::Nothing,
                wait_deadline_ns: 0,
                parallelism_scope: None,
                ..thread
            },
        )
    }

    /// The machine once the threads in the first `n` places of a domain are
    /// stopped.
    pub open spec fn threads_stopped(self, d: int, n: nat) -> MachineModel
        decreases n,
    {
        if n == 0 {
            self
        } else {
            let before = self.threads_stopped(d, (n - 1) as nat);
            match self.domains[d].threads@[n - 1] {
                None => before,
                Some(t) => before.thread_stopped(t as int),
            }
        }
    }

    /// The machine once those of the first `n` mappings that belong to a domain
    /// are withdrawn.
    pub open spec fn maps_dropped(self, d: int, cpu: int, n: nat) -> MachineModel
        decreases n,
    {
        if n == 0 {
            self
        } else {
            let before = self.maps_dropped(d, cpu, (n - 1) as nat);
            if before.maps[n - 1].used && before.maps[n - 1].domain == d {
                before.map_dropped(n - 1, cpu).0
            } else {
                before
            }
        }
    }

    /// The machine once the first `n` slots of a domain's table are released.
    pub open spec fn slots_released(self, d: int, n: nat) -> MachineModel
        decreases n,
    {
        if n == 0 {
            self
        } else {
            self.slots_released(d, (n - 1) as nat).release_slot(d, n - 1)
        }
    }

    /// The machine once a domain has been stopped.
    pub open spec fn terminated(
        self,
        d: int,
        reason: ExitReason,
        code: u64,
        cpu: int,
        now: u64,
    ) -> MachineModel {
        let marked = MachineModel {
            dead_pending: true,
            ..self.with_domain(
                d,
                Domain {
                    state: if reason == ExitReason::UserFault {
                        DomainState::Faulted
                    } else {
                        DomainState::Stopping
                    },
                    exit_reason: Some(reason),
                    exit_code: code,
                    ..self.domains[d]
                },
            )
        };
        marked.threads_stopped(d, MAX_THREADS_PER_DOMAIN as nat).maps_dropped(
            d,
            cpu,
            MAX_MAPS as nat,
        ).mourned(d, now).slots_released(d, MAX_CAPS as nat)
    }

    /// A thread of a domain, of the generation it has now.
    pub open spec fn is_thread_of(self, t: u16, d: int) -> bool {
        self.threads[t as int].domain == d && self.threads[t as int].domain_generation
            == self.domains[d].generation
    }

    /// Some processor that takes part stands on a domain: it runs one of its
    /// threads, is leaving one, or has its address space loaded.
    pub open spec fn is_stood_on(self, d: int) -> bool {
        exists|c: int|
            0 <= c < MAX_CPUS && (#[trigger] self.cpus[c]).online && {
                ||| self.cpus[c].current matches Some(t) && self.is_thread_of(t, d)
                ||| self.cpus[c].leaving matches Some(t) && self.is_thread_of(t, d)
                ||| self.cpus[c].space == Some(d as u16)
            }
    }

    /// A stopped domain that nothing stands on.
    pub open spec fn is_reapable(self, d: int) -> bool {
        let domain = self.domains[d];
        &&& domain.state == DomainState::Faulted || domain.state == DomainState::Stopping
        &&& domain.space is Some
        &&& !self.is_stood_on(d)
    }

    /// The machine once the thread in a place of a domain is gone, the frames of
    /// its stack apart.
    pub open spec fn thread_dropped(self, d: int, place: int) -> MachineModel {
        match self.domains[d].threads@[place] {
            None => self,
            Some(t) => self.with_kstack(
                self.threads[t as int].kstack_slot as int,
                false,
            ).with_thread(t as int, Thread::empty_spec()).with_domain(
                d,
                Domain {
                    threads: array_of(self.domains[d].threads@.update(place, None)),
                    ..self.domains[d]
                },
            ),
        }
    }

    /// The machine once the threads in the first `n` places of a domain are
    /// gone.
    pub open spec fn threads_dropped(self, d: int, n: nat) -> MachineModel
        decreases n,
    {
        if n == 0 {
            self
        } else {
            self.threads_dropped(d, (n - 1) as nat).thread_dropped(d, n - 1)
        }
    }

    /// The machine once a stopped domain has been reclaimed, what frames are
    /// used for apart. Its scope is credited with what it was charged.
    pub open spec fn reaped(self, d: int) -> MachineModel {
        let count = thread_count(self.domains[d], MAX_THREADS_PER_DOMAIN as int);
        let emptied = self.threads_dropped(d, MAX_THREADS_PER_DOMAIN as nat);
        let domain = emptied.domains[d];
        let s = domain.owner_scope;
        let bare = MachineModel {
            pages: without_space(emptied.pages, emptied.root_of(d)),
            ..emptied.with_domain(d, Domain { space: None, ..domain })
        };
        let credited = bare.uncharge(s, Resource::MemoryPages, domain.reserved_pages).uncharge(
            s,
            Resource::Metadata,
            domain.reserved_metadata,
        );
        credited.with_scope(
            s as int,
            Scope {
                threads: less(
                    credited.scopes[s as int].threads,
                    if count == 0 {
                        1
                    } else {
                        count as u32
                    },
                ),
                ..credited.scopes[s as int]
            },
        ).with_domain(
            d,
            Domain {
                state: DomainState::Dead,
                reserved_pages: 0,
                reserved_metadata: 0,
                space: None,
                ..domain
            },
        )
    }

    /// The machine once the first `n` domains have been considered for
    /// reclaiming.
    pub open spec fn all_reaped(self, n: nat) -> MachineModel
        decreases n,
    {
        if n == 0 {
            self
        } else {
            let before = self.all_reaped((n - 1) as nat);
            if before.is_reapable(n - 1) {
                before.reaped(n - 1)
            } else {
                before
            }
        }
    }

    /// A domain waits to be reclaimed.
    pub open spec fn some_stopped(self) -> bool {
        exists|d: int|
            0 <= d < MAX_DOMAINS && ((#[trigger] self.domains[d]).state == DomainState::Faulted
                || self.domains[d].state == DomainState::Stopping)
    }
}

/// `a - b`, or zero where that is negative.
pub open spec fn less(a: u32, b: u32) -> u32 {
    if a >= b {
        (a - b) as u32
    } else {
        0
    }
}

/// Finds the first thread of a domain.
fn find_first_thread(domain: &Domain) -> (t: Option<u16>)
    requires
        crate::state::domain_ok(*domain),
    ensures
        t == thread_from(*domain, 0),
        t matches Some(t) ==> t < MAX_THREADS,
{
    for place in 0..MAX_THREADS_PER_DOMAIN
        invariant
            crate::state::domain_ok(*domain),
            thread_from(*domain, 0) == thread_from(*domain, place as int),
    {
        match domain.threads[place] {
            Some(t) => {
                assert(domain.threads@[place as int] == Some(t));
                return Some(t);
            },
            None => {},
        }
    }
    None
}

/// Moves a domain from `Building` to `Runnable`.
///
/// This is the single point at which a domain becomes able to execute. Every
/// requirement is checked here rather than assumed from the construction path.
pub fn activate_in(machine: &mut Machine, d: usize) -> (result: Result<(), ActivationRefusal>)
    requires
        old(machine).wf(),
    ensures
        final(machine).wf(),
        match old(machine)@.activation_fault(d as int) {
            Some(refusal) => {
                &&& result == Err::<(), ActivationRefusal>(refusal)
                &&& final(machine)@ == old(machine)@
            },
            None => {
                &&& result == Ok::<(), ActivationRefusal>(())
                &&& final(machine)@ == old(machine)@.activated(d as int)
            },
        },
{
    if d >= MAX_DOMAINS {
        return Err(ActivationRefusal::NotBuilding);
    }
    let domain = machine.domain(d);
    if domain.state != DomainState::Building {
        return Err(ActivationRefusal::NotBuilding);
    }
    if domain.space.is_none() {
        return Err(ActivationRefusal::NoAddressSpace);
    }
    if domain.segments == 0 {
        return Err(ActivationRefusal::NoSegments);
    }
    if !domain.stack_mapped {
        return Err(ActivationRefusal::NoStack);
    }
    match find_first_thread(&domain) {
        None => {
            return Err(ActivationRefusal::NoThread);
        },
        Some(t) => {
            if machine.thread(t as usize).kstack_top == 0 {
                return Err(ActivationRefusal::NoThread);
            }
        },
    }
    let executable = match machine.translate(d, domain.entry) {
        Some(entry) => entry & 0x8000_0000_0000_0000 == 0 && entry & 4 != 0,
        None => false,
    };
    if !executable {
        return Err(ActivationRefusal::EntryNotExecutable);
    }
    if domain.managed && domain.fault_endpoint.is_none() {
        return Err(ActivationRefusal::NoFaultChannel);
    }
    if machine.scope(domain.owner_scope as usize).state != scope::State::Open {
        return Err(ActivationRefusal::ScopeClosed);
    }
    proof {
        machine.wf_sized();
    }
    machine.set_domain(d, Domain { state: DomainState::Runnable, ..domain });
    let ghost marked = machine@;
    for place in 0..MAX_THREADS_PER_DOMAIN
        invariant
            machine.wf(),
            d < MAX_DOMAINS,
            crate::state::domain_ok(domain),
            marked.domains[d as int].threads == domain.threads,
            machine@ == marked.threads_started(d as int, place as nat),
    {
        match domain.threads[place] {
            Some(t) => {
                assert(domain.threads@[place as int] == Some(t));
                let thread = machine.thread(t as usize);
                machine.set_thread(t as usize, Thread { state: ThreadState::Ready, ..thread });
            },
            None => {},
        }
    }
    Ok(())
}

/// Stops a thread for good.
fn stop_thread(machine: &mut Machine, t: usize)
    requires
        old(machine).wf(),
        t < MAX_THREADS,
    ensures
        final(machine).wf(),
        final(machine).same_tables(*old(machine)),
        final(machine)@ == old(machine)@.thread_stopped(t as int),
{
    let thread = machine.thread(t);
    match thread.parallelism_scope {
        Some(s) => {
            machine.count_parallelism(s, false);
        },
        None => {},
    }
    machine.set_thread(
        t,
        Thread {
            state: ThreadState::Dead,
            wait: Wait::Nothing,
            wait_deadline_ns: 0,
            parallelism_scope: None,
            ..thread
        },
    );
}

/// A stopped domain holds no live capability and no mapping, and stopping it
/// again does nothing.
pub open spec fn holds_nothing(m: MachineModel, d: int) -> bool {
    &&& m.domains[d].state == DomainState::Faulted || m.domains[d].state == DomainState::Stopping
    &&& forall|slot: int|
        0 <= slot < MAX_CAPS ==> !(#[trigger] m.caps[cap_at(d, slot)]).live
    &&& forall|i: int|
        0 <= i < MAX_MAPS ==> !((#[trigger] m.maps[i]).used && m.maps[i].domain == d)
}

/// Stops every thread of a domain and releases what the kernel can release at
/// once; returns whether the domain was there to be stopped.
///
/// The death of a client cancels messages nobody has received; a request that
/// was received is the receiver's obligation and stays counted until the
/// receiver resolves it.
pub fn terminate_in(
    machine: &mut Machine,
    d: usize,
    reason: ExitReason,
    code: u64,
    cpu: usize,
    now: u64,
) -> (stopped: bool)
    requires
        old(machine).wf(),
        d < MAX_DOMAINS,
    ensures
        final(machine).wf(),
        stopped == (old(machine)@.domains[d as int].state == DomainState::Building || old(
            machine,
        )@.domains[d as int].state == DomainState::Runnable),
        final(machine)@ == if stopped {
            old(machine)@.terminated(d as int, reason, code, cpu as int, now)
        } else {
            old(machine)@
        },
        stopped ==> holds_nothing(final(machine)@, d as int),
        stopped ==> {
            let ended = final(machine)@.domains[d as int];
            &&& ended.state == if reason == ExitReason::UserFault {
                DomainState::Faulted
            } else {
                DomainState::Stopping
            }
            &&& ended.exit_reason == Some(reason)
            &&& ended.exit_code == code
        },
{
    let domain = machine.domain(d);
    if domain.state != DomainState::Building && domain.state != DomainState::Runnable {
        return false;
    }
    proof {
        machine.wf_sized();
    }
    machine.set_domain(
        d,
        Domain {
            state: if reason == ExitReason::UserFault {
                DomainState::Faulted
            } else {
                DomainState::Stopping
            },
            exit_reason: Some(reason),
            exit_code: code,
            ..domain
        },
    );
    note_dead(machine);
    let ghost marked = machine@;
    for place in 0..MAX_THREADS_PER_DOMAIN
        invariant
            machine.wf(),
            crate::state::domain_ok(domain),
            marked.domains[d as int].threads == domain.threads,
            machine@ == marked.threads_stopped(d as int, place as nat),
            machine@.domains == marked.domains,
    {
        match domain.threads[place] {
            Some(t) => {
                assert(domain.threads@[place as int] == Some(t));
                stop_thread(machine, t as usize);
            },
            None => {},
        }
    }
    // Direct access goes away with the mappings, before the frames are touched.
    let ghost stopped = machine@;
    for i in 0..MAX_MAPS
        invariant
            machine.wf(),
            machine@ == stopped.maps_dropped(d as int, cpu as int, i as nat),
            machine@.domains == stopped.domains,
            forall|k: int|
                0 <= k < i ==> !((#[trigger] machine@.maps[k]).used && machine@.maps[k].domain == d),
    {
        let ghost before = machine@;
        proof {
            machine.wf_sized();
        }
        let record = machine.map(i);
        if record.used && record.domain as usize == d {
            proof {
                dropping_frees_one(before, i as int, cpu as int);
            }
            withdraw_map(machine, i, cpu);
        }
    }
    proof {
        machine.wf_sized();
    }
    let ghost cut = machine@;
    on_domain_death(machine, d, now);
    // Capabilities the domain held stop keeping anything alive.
    let ghost mourned = machine@;
    proof {
        untouched_is_calm(mourned, mourned);
    }
    for slot in 0..MAX_CAPS
        invariant
            machine.wf(),
            d < MAX_DOMAINS,
            machine@ == mourned.slots_released(d as int, slot as nat),
            is_calm(mourned, machine@),
            forall|k: int|
                0 <= k < slot ==> !(#[trigger] machine@.caps[cap_at(d as int, k)]).live,
    {
        let ghost before = machine@;
        proof {
            machine.caps_are_ok();
            release_slot_touches_one(before, d as int, slot as int);
        }
        cap_release_slot(machine, d, slot);
        proof {
            calm_goes_on(mourned, before, machine@);
        }
        assert forall|k: int| 0 <= k < slot + 1 implies !(#[trigger] machine@.caps[cap_at(
            d as int,
            k,
        )]).live by {
            if k < slot {
                assert(cap_at(d as int, k) != cap_at(d as int, slot as int));
                assert(!before.caps[cap_at(d as int, k)].live);
            }
        }
    }
    proof {
        calm_goes_on(cut, mourned, machine@);
        reveal(is_calm);
        assert(ends_alike(cut.domains[d as int], machine@.domains[d as int]));
    }
    true
}

/// Records that a domain has stopped and will need reclaiming.
pub fn note_dead(machine: &mut Machine)
    requires
        old(machine).wf(),
    ensures
        final(machine).wf(),
        final(machine).same_tables(*old(machine)),
        final(machine)@ == (MachineModel { dead_pending: true, ..old(machine)@ }),
{
    machine.set_dead_pending(true);
}

/// Whether a thread belongs to a domain as it is now.
fn is_thread_of(machine: &Machine, t: u16, d: usize) -> (yes: bool)
    requires
        machine.wf(),
        t < MAX_THREADS,
        d < MAX_DOMAINS,
    ensures
        yes == machine@.is_thread_of(t, d as int),
{
    let thread = machine.thread(t as usize);
    thread.domain as usize == d && thread.domain_generation == machine.domain(d).generation
}

/// Whether nothing anywhere in the machine is still standing on a stopped
/// domain.
///
/// A processor must not be running a thread of it, must not still be leaving
/// one, and must not have its address space loaded, or the ground would be
/// pulled out from under it.
fn reapable(machine: &Machine, d: usize) -> (yes: bool)
    requires
        machine.wf(),
        d < MAX_DOMAINS,
    ensures
        yes == machine@.is_reapable(d as int),
{
    let domain = machine.domain(d);
    if domain.state != DomainState::Faulted && domain.state != DomainState::Stopping {
        return false;
    }
    if domain.space.is_none() {
        return false;
    }
    for c in 0..MAX_CPUS
        invariant
            machine.wf(),
            d < MAX_DOMAINS,
            forall|k: int|
                0 <= k < c ==> !((#[trigger] machine@.cpus[k]).online && {
                    ||| machine@.cpus[k].current matches Some(t) && machine@.is_thread_of(
                        t,
                        d as int,
                    )
                    ||| machine@.cpus[k].leaving matches Some(t) && machine@.is_thread_of(
                        t,
                        d as int,
                    )
                    ||| machine@.cpus[k].space == Some(d as u16)
                }),
    {
        let cpu = machine.cpu(c);
        let runs = match cpu.current {
            Some(t) => is_thread_of(machine, t, d),
            None => false,
        };
        let leaves = match cpu.leaving {
            Some(t) => is_thread_of(machine, t, d),
            None => false,
        };
        let stands = match cpu.space {
            Some(at) => at as usize == d,
            None => false,
        };
        if cpu.online && (runs || leaves || stands) {
            assert(machine@.cpus[c as int].online);
            return false;
        }
    }
    true
}

/// Takes the threads of a stopped domain down.
fn drop_threads(machine: &mut Machine, d: usize)
    requires
        old(machine).wf(),
        old(machine)@.kernel_space is Some,
        d < MAX_DOMAINS,
    ensures
        final(machine).wf(),
        kernel_moved(old(machine)@.uses, final(machine)@.uses),
        stacks_returned(*old(machine), *final(machine)),
        final(machine)@ == (MachineModel {
            uses: final(machine)@.uses,
            ..old(machine)@.threads_dropped(d as int, MAX_THREADS_PER_DOMAIN as nat)
        }),
{
    proof {
        machine.wf_sized();
    }
    for place in 0..MAX_THREADS_PER_DOMAIN
        invariant
            machine.wf(),
            machine@.kernel_space is Some,
            old(machine)@.kernel_space is Some,
            d < MAX_DOMAINS,
            kernel_moved(old(machine)@.uses, machine@.uses),
            stacks_returned(*old(machine), *machine),
            machine@ == (MachineModel {
                uses: machine@.uses,
                ..old(machine)@.threads_dropped(d as int, place as nat)
            }),
    {
        let ghost before = *machine;
        let domain = machine.domain(d);
        match domain.threads[place] {
            None => {},
            Some(t) => {
                assert(domain.threads@[place as int] == Some(t));
                let kslot: usize = machine.thread(t as usize).kstack_slot as usize;
                release_kernel_stack(machine, kslot);
                let ghost released = *machine;
                machine.set_thread(t as usize, Thread::empty());
                let mut threads = domain.threads;
                threads[place] = None;
                proof {
                    array_of_elements(threads);
                }
                machine.set_domain(d, Domain { threads, ..domain });
                proof {
                    stacks_return_on(*old(machine), before, released);
                    kept_walks_return(released, *machine);
                    stacks_return_on(*old(machine), released, *machine);
                }
            },
        }
    }
}

/// Reclaims one stopped domain.
fn reap(machine: &mut Machine, d: usize)
    requires
        old(machine).wf(),
        old(machine)@.kernel_space is Some,
        d < MAX_DOMAINS,
        old(machine)@.is_reapable(d as int),
    ensures
        final(machine).wf(),
        reap_moved(old(machine)@.uses, final(machine)@.uses),
        held_by_others_stays(old(machine)@.uses, final(machine)@.uses, d as int),
        pages_given_back(old(machine)@, final(machine)@.uses, d as int),
        owns_no_table(final(machine)@.uses, d as int),
        stacks_returned(*old(machine), *final(machine)),
        kernel_gave_up(old(machine)@.uses, final(machine)@.uses),
        final(machine)@ == (MachineModel {
            uses: final(machine)@.uses,
            ..old(machine)@.reaped(d as int)
        }),
{
    let ghost m = machine@;
    let first = machine.domain(d);
    let count: u32 = count_threads(&first);
    proof {
        machine.wf_sized();
        dropping_keeps_space(m, d as int, MAX_THREADS_PER_DOMAIN as nat);
    }
    drop_threads(machine, d);
    let ghost emptied = machine@;
    let ghost bare = *machine;
    machine.drop_space(d);
    let ghost dropped = *machine;
    proof {
        kept_walks_return(bare, dropped);
        stacks_return_on(*old(machine), bare, dropped);
        dropping_keeps_pages(m, d as int, MAX_THREADS_PER_DOMAIN as nat);
        assert forall|v: u64| #[trigger] m.pages.contains_key((m.root_of(d as int), v)) implies
            page_given_back(
            m.uses,
            machine@.uses,
            m.pages[(m.root_of(d as int), v)].1,
            Owner::Domain(d as u16),
        ) by {
            assert(emptied.pages.contains_key((emptied.root_of(d as int), v)));
        }
    }
    let domain = machine.domain(d);
    let s: u16 = domain.owner_scope;
    machine.uncharge(s, Resource::MemoryPages, domain.reserved_pages);
    machine.uncharge(s, Resource::Metadata, domain.reserved_metadata);
    let node = machine.scope(s as usize);
    let gone: u32 = if count == 0 {
        1
    } else {
        count
    };
    machine.set_scope(
        s as usize,
        Scope { threads: node.threads.saturating_sub(gone), ..node },
    );
    machine.set_domain(
        d,
        Domain {
            state: DomainState::Dead,
            reserved_pages: 0,
            reserved_metadata: 0,
            ..domain
        },
    );
    proof {
        kept_walks_return(dropped, *machine);
        stacks_return_on(*old(machine), dropped, *machine);
    }
}

/// Taking threads down leaves the address space and the rest of the domain.
proof fn dropping_keeps_space(m: MachineModel, d: int, n: nat)
    requires
        m.domains.len() == MAX_DOMAINS,
        0 <= d < MAX_DOMAINS,
    ensures
        m.threads_dropped(d, n).domains.len() == MAX_DOMAINS,
        m.threads_dropped(d, n).domains[d].space == m.domains[d].space,
        m.threads_dropped(d, n).kernel_space == m.kernel_space,
    decreases n,
{
    if n > 0 {
        dropping_keeps_space(m, d, (n - 1) as nat);
    }
}

/// Taking threads down leaves every translation of the lower half.
proof fn dropping_keeps_pages(m: MachineModel, d: int, n: nat)
    ensures
        m.threads_dropped(d, n).pages == m.pages,
    decreases n,
{
    if n > 0 {
        dropping_keeps_pages(m, d, (n - 1) as nat);
    }
}

/// Frames that domains other than `d` hold stay in their hands.
pub open spec fn held_by_others_stays(
    before: Seq<FrameUse>,
    after: Seq<FrameUse>,
    d: int,
) -> bool {
    forall|i: int|
        0 <= i < before.len() ==> ((#[trigger] before[i] matches FrameUse::Held(Owner::Domain(e))
            && e != d) ==> after[i] == before[i])
}

/// What reclaiming the first `n` domains leaves of the others: their spaces and
/// what translates in them.
proof fn reaping_keeps_others(m: MachineModel, n: nat, d: int)
    requires
        m.domains.len() == MAX_DOMAINS,
        n <= d < MAX_DOMAINS,
        m.domains[d].space is Some,
        forall|e: int|
            0 <= e < MAX_DOMAINS && e != d && (#[trigger] m.domains[e]).space is Some
                ==> m.domains[e].space != m.domains[d].space,
    ensures
        forall|v: u64|
            #![trigger m.pages.contains_key((m.root_of(d), v))]
            m.pages.contains_key((m.root_of(d), v)) ==> m.all_reaped(n).pages.contains_key(
                (m.root_of(d), v),
            ) && m.all_reaped(n).pages[(m.root_of(d), v)] == m.pages[(m.root_of(d), v)],
    decreases n,
{
    if n > 0 {
        reaping_keeps_others(m, (n - 1) as nat, d);
        let before = m.all_reaped((n - 1) as nat);
        let e = n - 1;
        if before.is_reapable(e) {
            reaping_keeps_spaces(m, (n - 1) as nat);
            dropping_keeps_pages(before, e, MAX_THREADS_PER_DOMAIN as nat);
            dropping_keeps_spaces(before, e, MAX_THREADS_PER_DOMAIN as nat);
            assert(before.domains[e].space == m.domains[e].space);
            assert(before.root_of(e) != m.root_of(d));
        }
    }
}

proof fn reaping_keeps_spaces(m: MachineModel, n: nat)
    requires
        m.domains.len() == MAX_DOMAINS,
        n <= MAX_DOMAINS,
    ensures
        m.all_reaped(n).domains.len() == MAX_DOMAINS,
        forall|e: int|
            n <= e < MAX_DOMAINS ==> (#[trigger] m.all_reaped(n).domains[e]).space
                == m.domains[e].space,
    decreases n,
{
    if n > 0 {
        reaping_keeps_spaces(m, (n - 1) as nat);
        let before = m.all_reaped((n - 1) as nat);
        dropping_keeps_spaces(before, n - 1, MAX_THREADS_PER_DOMAIN as nat);
    }
}

proof fn dropping_keeps_spaces(m: MachineModel, d: int, n: nat)
    requires
        m.domains.len() == MAX_DOMAINS,
        0 <= d < MAX_DOMAINS,
    ensures
        m.threads_dropped(d, n).domains.len() == MAX_DOMAINS,
        forall|e: int|
            0 <= e < MAX_DOMAINS ==> (#[trigger] m.threads_dropped(d, n).domains[e]).space
                == m.domains[e].space,
    decreases n,
{
    if n > 0 {
        dropping_keeps_spaces(m, d, (n - 1) as nat);
    }
}

/// What reclaiming does to the tables has nothing to do with the frames.
proof fn reaping_is_separate(m: MachineModel, uses: Seq<FrameUse>, d: int)
    ensures
        (MachineModel { uses, ..m }).reaped(d) == (MachineModel { uses, ..m.reaped(d) }),
{
    dropping_is_separate(m, uses, d, MAX_THREADS_PER_DOMAIN as nat);
}

proof fn dropping_is_separate(m: MachineModel, uses: Seq<FrameUse>, d: int, n: nat)
    ensures
        (MachineModel { uses, ..m }).threads_dropped(d, n) == (MachineModel {
            uses,
            ..m.threads_dropped(d, n)
        }),
    decreases n,
{
    if n > 0 {
        dropping_is_separate(m, uses, d, (n - 1) as nat);
    }
}

/// Frames either keep their use, or went into quarantine.
pub open spec fn reap_moved(before: Seq<FrameUse>, after: Seq<FrameUse>) -> bool {
    &&& after.len() == before.len()
    &&& forall|i: int|
        0 <= i < before.len() ==> {
            ||| #[trigger] after[i] == before[i]
            ||| !(before[i] is Retired) && after[i] is Retired
            ||| before[i] == FrameUse::Free && (after[i] == FrameUse::Table(Owner::Kernel)
                || after[i] == FrameUse::Held(Owner::Kernel))
        }
}

/// Of the first `n` domains, those that were reclaimed own no table, and what
/// they held and mapped is in quarantine.
pub open spec fn reaped_frames_return(before: MachineModel, after: Seq<FrameUse>, n: int) -> bool {
    forall|d: int|
        0 <= d < n && #[trigger] before.all_reaped(d as nat).is_reapable(d) ==> owns_no_table(
            after,
            d,
        ) && pages_given_back(before, after, d)
}

/// What reclaiming every domain that has stopped leaves.
pub open spec fn reaping(before: MachineModel, after: MachineModel) -> bool {
    if !before.dead_pending {
        after == before
    } else {
        let reaped = before.all_reaped(MAX_DOMAINS as nat);
        &&& reap_moved(before.uses, after.uses)
        &&& reaped_frames_return(before, after.uses, MAX_DOMAINS as int)
        &&& after == (MachineModel {
            uses: after.uses,
            dead_pending: reaped.some_stopped() && reaped.dead_pending,
            ..reaped
        })
    }
}

/// Reclaims every domain that has stopped and that no processor is still
/// standing on. The mark that something waits to be reclaimed goes only when
/// nothing does: a domain that is still stood on keeps it.
#[verifier::rlimit(40)]
pub fn reap_dead(machine: &mut Machine)
    requires
        old(machine).wf(),
        old(machine)@.kernel_space is Some,
    ensures
        final(machine).wf(),
        final(machine)@.kernel_space is Some,
        reaping(old(machine)@, final(machine)@),
        stacks_returned(*old(machine), *final(machine)),
{
    if !machine.dead_pending {
        return;
    }
    for d in 0..MAX_DOMAINS
        invariant
            machine.wf(),
            machine@.kernel_space is Some,
            old(machine)@.kernel_space is Some,
            reap_moved(old(machine)@.uses, machine@.uses),
            stacks_returned(*old(machine), *machine),
            kernel_gave_up(old(machine)@.uses, machine@.uses),
            reaped_frames_return(old(machine)@, machine@.uses, d as int),
            forall|i: int|
                0 <= i < old(machine)@.uses.len() ==> ((#[trigger] old(
                    machine,
                )@.uses[i] matches FrameUse::Held(Owner::Domain(e)) && e >= d)
                    ==> machine@.uses[i] == old(machine)@.uses[i]),
            old(machine).wf(),
            machine@ == (MachineModel {
                uses: machine@.uses,
                ..old(machine)@.all_reaped(d as nat)
            }),
    {
        if reapable(machine, d) {
            let ghost standing = *machine;
            let ghost before = machine@;
            proof {
                machine.wf_sized();
                dropping_keeps_space(before, d as int, MAX_THREADS_PER_DOMAIN as nat);
            }
            reap(machine, d);
            proof {
                let x = old(machine)@.all_reaped(d as nat);
                stacks_return_on(*old(machine), standing, *machine);
                reaping_is_separate(x, before.uses, d as int);
                old(machine).wf_sized();
                old(machine).spaces_differ(d as int);
                assert(x.is_reapable(d as int));
                reaping_keeps_spaces(old(machine)@, d as nat);
                reaping_keeps_others(old(machine)@, d as nat, d as int);
                let m = old(machine)@;
                assert(x.root_of(d as int) == m.root_of(d as int));
                assert forall|v: u64|
                    #[trigger] m.pages.contains_key((m.root_of(d as int), v)) implies
                    page_given_back(
                    m.uses,
                    machine@.uses,
                    m.pages[(m.root_of(d as int), v)].1,
                    Owner::Domain(d as u16),
                ) by {
                    assert(before.pages.contains_key((before.root_of(d as int), v)));
                }
                assert forall|e: int|
                    0 <= e < d + 1 && #[trigger] m.all_reaped(e as nat).is_reapable(e) implies
                    owns_no_table(machine@.uses, e) && pages_given_back(m, machine@.uses, e) by {
                    if e < d {
                        assert(owns_no_table(before.uses, e));
                        assert(pages_given_back(m, before.uses, e));
                    }
                }
            }
        }
    }
    if !any_stopped(machine) {
        let ghost reaped = *machine;
        machine.set_dead_pending(false);
        proof {
            kept_walks_return(reaped, *machine);
            stacks_return_on(*old(machine), reaped, *machine);
        }
    }
}

/// Reclaiming gives everything back: a domain that held only what it mapped, as
/// one does that was just built, holds no frame and owns no table once it has
/// been reclaimed.
pub proof fn reclaimed_domains_hold_nothing(before: MachineModel, after: MachineModel, d: int)
    requires
        reaping(before, after),
        before.dead_pending,
        0 <= d < MAX_DOMAINS,
        before.all_reaped(d as nat).is_reapable(d),
        forall|i: int|
            0 <= i < before.uses.len() && #[trigger] before.uses[i] == FrameUse::Held(
                Owner::Domain(d as u16),
            ) ==> is_mapped_somewhere(before.pages, before.root_of(d), i),
    ensures
        forall|i: int|
            0 <= i < after.uses.len() ==> {
                &&& #[trigger] after.uses[i] != FrameUse::Held(Owner::Domain(d as u16))
                &&& after.uses[i] != FrameUse::Table(Owner::Domain(d as u16))
            },
{
    let owner = Owner::Domain(d as u16);
    assert forall|i: int| 0 <= i < after.uses.len() implies {
        &&& #[trigger] after.uses[i] != FrameUse::Held(owner)
        &&& after.uses[i] != FrameUse::Table(owner)
    } by {
        if after.uses[i] == FrameUse::Held(owner) {
            assert(before.uses[i] == after.uses[i]);
            let root = before.root_of(d);
            let v = choose|v: u64| #[trigger]
                before.pages.contains_key((root, v)) && target(before.pages[(root, v)].1) as int
                    / 0x1000 == i;
            assert(page_given_back(before.uses, after.uses, before.pages[(root, v)].1, owner));
        }
    }
}

/// Whether a domain waits to be reclaimed.
fn any_stopped(machine: &Machine) -> (yes: bool)
    requires
        machine.wf(),
    ensures
        yes == machine@.some_stopped(),
{
    for d in 0..MAX_DOMAINS
        invariant
            machine.wf(),
            forall|k: int|
                0 <= k < d ==> !((#[trigger] machine@.domains[k]).state == DomainState::Faulted
                    || machine@.domains[k].state == DomainState::Stopping),
    {
        let state = machine.domain(d).state;
        if state == DomainState::Faulted || state == DomainState::Stopping {
            assert(machine@.domains[d as int].state == state);
            return true;
        }
    }
    false
}

impl MachineModel {
    /// The first place of a domain that holds no thread, or
    /// [`MAX_THREADS_PER_DOMAIN`].
    pub open spec fn free_place(domain: Domain, from: int) -> int
        decreases MAX_THREADS_PER_DOMAIN - from,
    {
        if from >= MAX_THREADS_PER_DOMAIN {
            MAX_THREADS_PER_DOMAIN as int
        } else if domain.threads@[from] is None {
            from
        } else {
            MachineModel::free_place(domain, from + 1)
        }
    }

    /// The addresses a thread starts with are pages of its own: code it may
    /// reach, and a stack it may write.
    pub open spec fn thread_is_mapped(self, d: int, entry: u64, stack_top: u64) -> bool {
        let stack = if stack_top >= 8 {
            (stack_top - 8) as u64
        } else {
            0
        };
        &&& self.translated(d, entry) matches Some(e) && e & 4 != 0
        &&& self.translated(d, stack) matches Some(e) && e & 4 != 0 && e & 2 != 0
    }

    /// Why a thread is not added, before its kernel stack is made; nothing when
    /// it can be.
    pub open spec fn thread_fault(self, d: int, entry: u64, stack: u64) -> Option<CreateError> {
        let domain = self.domains[d];
        if domain.state != DomainState::Building {
            Some(CreateError::ScopeClosed)
        } else if !self.thread_is_mapped(d, entry, stack) {
            Some(CreateError::Mapping(MapError::BadAddress))
        } else if MachineModel::free_place(domain, 0) == MAX_THREADS_PER_DOMAIN || first_thread(
            self.threads,
            0,
        ) == MAX_THREADS {
            Some(CreateError::ThreadTableFull)
        } else if !has_slot(self.scopes, domain.owner_scope as int) || !self.affords(
            domain.owner_scope,
            Resource::MemoryPages,
            KSTACK_PAGES as int,
        ) || !self.affords(domain.owner_scope, Resource::Metadata, 1) {
            Some(CreateError::LimitExhausted)
        } else {
            None
        }
    }

    /// The machine once a thread has been added to a domain, what frames are
    /// used for apart.
    pub open spec fn thread_added(
        self,
        d: int,
        entry: u64,
        stack: u64,
        argument: u64,
    ) -> MachineModel {
        let domain = self.domains[d];
        let s = domain.owner_scope;
        let t = first_thread(self.threads, 0);
        let kslot = first_kstack(self.kstacks, 0);
        let made = self.charge(s, Resource::MemoryPages, KSTACK_PAGES).charge(
            s,
            Resource::Metadata,
            1,
        ).with_kstack(kslot, true).thread_made(t, d, kslot, entry, stack, argument);
        made.with_scope(
            s as int,
            Scope {
                threads: one_more(made.scopes[s as int].threads),
                ..made.scopes[s as int]
            },
        ).with_domain(
            d,
            Domain {
                threads: array_of(
                    domain.threads@.update(
                        MachineModel::free_place(domain, 0),
                        Some(t as u16),
                    ),
                ),
                reserved_pages: crate::api::scopeops::sum(domain.reserved_pages, KSTACK_PAGES),
                reserved_metadata: crate::api::scopeops::sum(domain.reserved_metadata, 1),
                ..domain
            },
        )
    }
}

/// Finds the first place of a domain that holds no thread.
fn find_place(domain: &Domain) -> (place: usize)
    ensures
        place == MachineModel::free_place(*domain, 0),
        place <= MAX_THREADS_PER_DOMAIN,
{
    let mut place: usize = 0;
    while place < MAX_THREADS_PER_DOMAIN && domain.threads[place].is_some()
        invariant
            place <= MAX_THREADS_PER_DOMAIN,
            MachineModel::free_place(*domain, 0) == MachineModel::free_place(
                *domain,
                place as int,
            ),
        decreases MAX_THREADS_PER_DOMAIN - place,
    {
        place += 1;
    }
    place
}

/// Decides whether the addresses a thread starts with are pages of its domain.
pub fn thread_mapped(machine: &Machine, d: usize, entry: u64, stack_top: u64) -> (yes: bool)
    requires
        machine.wf(),
        d < MAX_DOMAINS,
    ensures
        yes == machine@.thread_is_mapped(d as int, entry, stack_top),
{
    let entry_ok = match machine.translate(d, entry) {
        Some(e) => e & 4 != 0,
        None => false,
    };
    let stack: u64 = stack_top.saturating_sub(8);
    let stack_ok = match machine.translate(d, stack) {
        Some(e) => e & 4 != 0 && e & 2 != 0,
        None => false,
    };
    entry_ok && stack_ok
}

/// Adds a thread to a domain under construction.
///
/// The entry point and the stack are checked against the domain's own mappings,
/// not taken on trust: a thread whose stack is not writable memory of its domain
/// would fault on its first push.
pub fn add_thread_in(
    machine: &mut Machine,
    d: usize,
    entry: u64,
    stack: u64,
    argument: u64,
) -> (result: Result<usize, CreateError>)
    requires
        old(machine).wf(),
        old(machine)@.kernel_space is Some,
        d < MAX_DOMAINS,
    ensures
        final(machine).wf(),
        kernel_took(old(machine)@.uses, final(machine)@.uses),
        match old(machine)@.thread_fault(d as int, entry, stack) {
            Some(e) => {
                &&& result == Err::<usize, CreateError>(e)
                &&& final(machine)@ == old(machine)@
            },
            None => match result {
                Err(e) => {
                    &&& stack_refused(*old(machine), e)
                    &&& final(machine)@ == (MachineModel {
                        uses: final(machine)@.uses,
                        ..old(machine)@
                    })
                },
                Ok(t) => {
                    &&& t == first_thread(old(machine)@.threads, 0)
                    &&& t < MAX_THREADS
                    &&& stack_is_mapped(
                        *final(machine),
                        first_kstack(old(machine)@.kstacks, 0),
                        KSTACK_PAGES as int,
                    )
                    &&& stack_is_fresh(
                        old(machine)@.uses,
                        *final(machine),
                        first_kstack(old(machine)@.kstacks, 0),
                        KSTACK_PAGES as int,
                    )
                    &&& final(machine)@ == (MachineModel {
                        uses: final(machine)@.uses,
                        ..old(machine)@.thread_added(d as int, entry, stack, argument)
                    })
                },
            },
        },
{
    let domain = machine.domain(d);
    if domain.state != DomainState::Building {
        return Err(CreateError::ScopeClosed);
    }
    if !thread_mapped(machine, d, entry, stack) {
        return Err(CreateError::Mapping(MapError::BadAddress));
    }
    let place: usize = find_place(&domain);
    if place == MAX_THREADS_PER_DOMAIN {
        return Err(CreateError::ThreadTableFull);
    }
    let t: usize = find_thread(machine);
    if t == MAX_THREADS {
        return Err(CreateError::ThreadTableFull);
    }
    let s: u16 = domain.owner_scope;
    if !machine.has_parallelism(s) || !machine.affords(s, Resource::MemoryPages, KSTACK_PAGES)
        || !machine.affords(s, Resource::Metadata, 1) {
        return Err(CreateError::LimitExhausted);
    }
    let ghost m = machine@;
    proof {
        machine.wf_scopes();
        room_is_separate(
            m.scopes,
            s as int,
            Resource::Metadata,
            1,
            s as int,
            Resource::MemoryPages,
            KSTACK_PAGES as int,
        );
    }
    machine.charge(s, Resource::MemoryPages, KSTACK_PAGES);
    let ghost paid = machine@;
    machine.charge(s, Resource::Metadata, 1);
    let ghost charged = *machine;
    let (kslot, top): (usize, u64) = match allocate_kernel_stack(machine) {
        Err(error) => {
            proof {
                machine.wf_scopes();
                scope::charged_keeps_tree(
                    m.scopes,
                    s as int,
                    Resource::MemoryPages,
                    KSTACK_PAGES as int,
                );
                release_undoes_reserve(paid.scopes, s as int, Resource::Metadata, 1);
                release_undoes_reserve(
                    m.scopes,
                    s as int,
                    Resource::MemoryPages,
                    KSTACK_PAGES,
                );
                build_refused_before_stack(*old(machine), charged, error);
            }
            machine.uncharge(s, Resource::Metadata, 1);
            machine.uncharge(s, Resource::MemoryPages, KSTACK_PAGES);
            assert(machine@ =~= (MachineModel { uses: machine@.uses, ..m }));
            return Err(error);
        },
        Ok(made) => made,
    };
    let ghost stacked = *machine;
    make_thread(machine, t, d, kslot, top, entry, stack, argument);
    let node = machine.scope(s as usize);
    machine.set_scope(s as usize, Scope { threads: node.threads.saturating_add(1), ..node });
    let mut threads = domain.threads;
    threads[place] = Some(t as u16);
    proof {
        array_of_elements(threads);
    }
    machine.set_domain(
        d,
        Domain {
            threads,
            reserved_pages: domain.reserved_pages.saturating_add(KSTACK_PAGES),
            reserved_metadata: domain.reserved_metadata.saturating_add(1),
            ..domain
        },
    );
    proof {
        charged.wf_sized();
        first_kstack_is_free(m.kstacks, 0);
        taken_stacks_are_mapped(*machine, kslot as int);
        stack_stays_fresh(m.uses, stacked, *machine, kslot as int, KSTACK_PAGES as int);
    }
    Ok(t)
}

/// What keeps a kernel stack from being made has nothing to do with charges.
proof fn build_refused_before_stack(first: Machine, charged: Machine, e: CreateError)
    requires
        charged.same_tables(first),
        charged@.uses == first@.uses,
        charged@.kstacks == first@.kstacks,
        charged@.kernel_space == first@.kernel_space,
        stack_refused(charged, e),
    ensures
        stack_refused(first, e),
{
}

/// A domain that is activated meets every requirement: it is under construction,
/// has a space, segments, a stack and a thread, enters where it may execute,
/// has a channel for its faults if a supervisor builds it, and its scope is
/// open. And a domain is activated at most once.
pub proof fn activation_needs_everything(m: MachineModel, d: int)
    requires
        m.sized(),
        0 <= d < MAX_DOMAINS,
        m.activation_fault(d) is None,
    ensures
        m.domains[d].state == DomainState::Building,
        m.domains[d].space is Some,
        m.domains[d].segments > 0,
        m.domains[d].stack_mapped,
        thread_from(m.domains[d], 0) is Some,
        m.translated(d, m.domains[d].entry) matches Some(e) && is_executable(e),
        m.domains[d].managed ==> m.domains[d].fault_endpoint is Some,
        m.is_open(m.domains[d].owner_scope),
        m.activated(d).activation_fault(d) == Some(ActivationRefusal::NotBuilding),
{
    starting_keeps_domains(
        m.with_domain(d, Domain { state: DomainState::Runnable, ..m.domains[d] }),
        d,
        MAX_THREADS_PER_DOMAIN as nat,
    );
}

proof fn starting_keeps_domains(m: MachineModel, d: int, n: nat)
    ensures
        m.threads_started(d, n).domains == m.domains,
    decreases n,
{
    if n > 0 {
        starting_keeps_domains(m, d, (n - 1) as nat);
    }
}

impl MachineModel {
    /// The machine once a fault of a domain has been counted and put on record.
    pub open spec fn fault_recorded(self, d: int, record: FaultRecord) -> MachineModel {
        MachineModel {
            user_faults: if self.user_faults < u64::MAX {
                (self.user_faults + 1) as u64
            } else {
                u64::MAX
            },
            ..self
        }.with_domain(
            d,
            Domain {
                fault: Some(record),
                faults: one_more(self.domains[d].faults),
                ..self.domains[d]
            },
        )
    }

    /// The machine once the supervisor of a domain has been told of a fault, if
    /// it can be.
    pub open spec fn fault_reported(self, d: int, t: int, record: FaultRecord, now: u64) -> MachineModel {
        if self.can_report(d, t, record, now) {
            self.admitted(
                self.fault_ctx(d, t, now),
                self.fault_message(d, t, record),
                message_kind::FAULT,
                None,
            )
        } else {
            self
        }
    }
}

/// Stops a domain because one of its threads faulted; returns whether the fault
/// is its own.
///
/// A thread that authority already stopped, and whose withdrawn mappings caught
/// up with it, has not done anything its program should be charged with: the
/// fault is not counted against a domain already terminated. Otherwise the
/// supervisor is told before the domain is torn down.
#[verifier::spinoff_prover]
pub fn terminate_on_fault(
    machine: &mut Machine,
    t: usize,
    record: &FaultRecord,
    cpu: usize,
    now: u64,
) -> (counted: bool)
    requires
        old(machine).wf(),
        t < MAX_THREADS,
    ensures
        final(machine).wf(),
        counted == (old(machine)@.threads[t as int].state != ThreadState::Dead),
        ({
            let d = old(machine)@.threads[t as int].domain as int;
            let told = old(machine)@.fault_recorded(d, *record).fault_reported(
                d,
                t as int,
                *record,
                now,
            );
            final(machine)@ == if !counted {
                old(machine)@
            } else if told.domains[d].state == DomainState::Building || told.domains[d].state
                == DomainState::Runnable {
                told.terminated(d, ExitReason::UserFault, 0, cpu as int, now)
            } else {
                told
            }
        }),
{
    let thread = machine.thread(t);
    if thread.state == ThreadState::Dead {
        return false;
    }
    let d: usize = thread.domain as usize;
    proof {
        machine.domain_is_ok(d);
    }
    machine.count_fault();
    let domain = machine.domain(d);
    machine.set_domain(
        d,
        Domain { fault: Some(*record), faults: domain.faults.saturating_add(1), ..domain },
    );
    deliver_fault(machine, d, t, record, now);
    terminate_in(machine, d, ExitReason::UserFault, 0, cpu, now);
    true
}

/// Stops the domain of a thread at its own request.
pub fn terminate_voluntarily(machine: &mut Machine, t: usize, code: u64, cpu: usize, now: u64)
    requires
        old(machine).wf(),
        t < MAX_THREADS,
    ensures
        final(machine).wf(),
        ({
            let d = old(machine)@.threads[t as int].domain as int;
            let state = old(machine)@.domains[d].state;
            final(machine)@ == if state == DomainState::Building || state
                == DomainState::Runnable {
                old(machine)@.terminated(d, ExitReason::Voluntary, code, cpu as int, now)
            } else {
                old(machine)@
            }
        }),
{
    let d: usize = machine.thread(t).domain as usize;
    terminate_in(machine, d, ExitReason::Voluntary, code, cpu, now);
}

/// Name of a domain, for diagnostic records.
pub fn domain_name(machine: &Machine, index: usize) -> (name: Vec<u8>)
    requires
        machine.wf(),
        index < MAX_DOMAINS,
    ensures
        name@ == machine@.domains[index as int].name@.take(
            machine@.domains[index as int].name_len as int,
        ),
{
    proof {
        machine.domain_is_ok(index);
    }
    let domain = machine.domain(index);
    let mut name: Vec<u8> = Vec::new();
    for i in 0..domain.name_len
        invariant
            domain.name_len <= 32,
            name@ == domain.name@.take(i as int),
    {
        name.push(domain.name[i]);
        assert(name@ =~= domain.name@.take(i + 1));
    }
    name
}

} // verus!
