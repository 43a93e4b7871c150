//! Physical frames: who holds each one, and what page tables are kept in them.

use vstd::prelude::*;

use crate::page_table::{
    child_of, consistent, entry_ok, large, present, zero_entry_bits, Label, Page, USER,
};
use crate::protocol::PAGE_SIZE;

verus! {

/// Frames of RAM the allocator can manage: sixty-four gibibytes.
pub const MAX_FRAMES: usize = 0x100_0000;

/// Frames below the highest physical address an entry can hold.
pub const PHYSICAL_FRAMES: u64 = 0x100_0000_0000;

/// One page of physical memory.
#[derive(Clone, Copy, Debug, PartialEq, Eq, Structural)]
pub struct Frame {
    /// Position of the frame: its address divided by the page size.
    pub number: u64,
}

/// On whose account a frame is held.
#[derive(Clone, Copy, Debug, PartialEq, Eq, Structural)]
pub enum Owner {
    /// The kernel itself.
    Kernel,
    /// A domain, by its slot.
    Domain(u16),
    /// A scope, by its slot.
    Scope(u16),
}

/// What a frame is used for.
#[derive(Clone, Copy, Debug, PartialEq, Eq, Structural)]
pub enum FrameUse {
    /// Never handed out.
    Reserved,
    /// Ready to be handed out.
    Free,
    /// Handed out.
    Held(Owner),
    /// Handed out and serving as a page table.
    Table(Owner),
    /// Given back, waiting until no processor can hold a translation to it.
    Retired(Owner),
}

/// No frame is free.
#[derive(Clone, Copy, Debug, PartialEq, Eq, Structural)]
pub struct AllocError;

/// Access a mapping permits.
#[derive(Clone, Copy, Debug, PartialEq, Eq, Structural)]
pub struct Rights {
    /// Readable.
    pub read: bool,
    /// Writable.
    pub write: bool,
    /// Executable.
    pub execute: bool,
    /// Reachable from ring 3.
    pub user: bool,
    /// Not cached: device registers.
    pub uncacheable: bool,
}

/// Why a combination of rights cannot be mapped.
#[derive(Clone, Copy, Debug, PartialEq, Eq, Structural)]
pub enum RightsError {
    /// The platform has no page that cannot be read.
    NotReadable,
    /// No page is ever both writable and executable.
    WriteAndExecute,
}

impl RightsError {
    /// The name [`RightsError::name`] returns.
    pub open spec fn name_spec(self) -> Seq<char> {
        match self {
            RightsError::NotReadable => "not_readable"@,
            RightsError::WriteAndExecute => "write_and_execute"@,
        }
    }

    /// Short name used in diagnostic records.
    pub fn name(self) -> (text: &'static str)
        ensures
            text@ == self.name_spec(),
    {
        match self {
            RightsError::NotReadable => "not_readable",
            RightsError::WriteAndExecute => "write_and_execute",
        }
    }
}

impl Rights {
    /// What is wrong with the combination, if anything.
    pub open spec fn fault(self) -> Option<RightsError> {
        if !self.read {
            Some(RightsError::NotReadable)
        } else if self.write && self.execute {
            Some(RightsError::WriteAndExecute)
        } else {
            None
        }
    }

    /// Rights of a user mapping.
    pub fn user(read: bool, write: bool, execute: bool) -> (rights: Rights)
        ensures
            rights == (Rights { read, write, execute, user: true, uncacheable: false }),
    {
        Rights { read, write, execute, user: true, uncacheable: false }
    }

    /// Rights of ordinary kernel data.
    pub fn kernel_rw() -> (rights: Rights)
        ensures
            rights == (Rights {
                read: true,
                write: true,
                execute: false,
                user: false,
                uncacheable: false,
            }),
    {
        Rights { read: true, write: true, execute: false, user: false, uncacheable: false }
    }

    /// Refuses a combination that the platform cannot map or that would make a
    /// page both writable and executable.
    pub fn validate(&self) -> (result: Result<(), RightsError>)
        ensures
            result == (match self.fault() {
                Some(e) => Err::<(), RightsError>(e),
                None => Ok(()),
            }),
    {
        if !self.read {
            return Err(RightsError::NotReadable);
        }
        if self.write && self.execute {
            return Err(RightsError::WriteAndExecute);
        }
        Ok(())
    }
}

impl Frame {
    /// Physical address of the frame.
    pub open spec fn address(self) -> int {
        self.number * 0x1000
    }

    /// The frame that holds physical address `addr`.
    pub fn containing(addr: u64) -> (frame: Frame)
        ensures
            frame.number == addr / 0x1000,
    {
        Frame { number: addr / PAGE_SIZE }
    }

    /// Physical address of the frame.
    pub fn addr(&self) -> (address: u64)
        requires
            self.number < PHYSICAL_FRAMES,
        ensures
            address == self.address(),
    {
        self.number * PAGE_SIZE
    }
}

/// The tables whose label lies in the lower half of the address space.
pub open spec fn is_low(level: nat, prefix: int) -> bool {
    if level == 0 {
        prefix < 0x400_0000
    } else if level == 1 {
        prefix < 0x2_0000
    } else {
        prefix < 256
    }
}

/// An interior entry of the lower half is the only one that leads to its table,
/// and stays inside the address space it starts from.
pub open spec fn sole_parent(
    labels: Seq<Label>,
    parents: Seq<(int, int)>,
    homes: Seq<int>,
    t: int,
    s: int,
    e: u64,
) -> bool {
    match labels[t] {
        Some((level, prefix)) => level > 0 && present(e) && !large(e) && is_low(
            (level - 1) as nat,
            prefix * 512 + s,
        ) ==> {
            &&& parents[child_of(0, e)] == (t, s)
            &&& homes[child_of(0, e)] == homes[t]
        },
        None => true,
    }
}

/// Every interior entry of the lower half owes what [`sole_parent`] says, and
/// every topmost table is at home in itself.
pub open spec fn sole_parents(
    mem: Seq<Page>,
    labels: Seq<Label>,
    parents: Seq<(int, int)>,
    homes: Seq<int>,
) -> bool {
    &&& parents.len() == mem.len()
    &&& homes.len() == mem.len()
    &&& forall|t: int, s: int|
        0 <= t < mem.len() && 0 <= s < 512 ==> sole_parent(
            labels,
            parents,
            homes,
            t,
            s,
            #[trigger] mem[t]@[s],
        )
    &&& forall|r: int|
        0 <= r < mem.len() && #[trigger] labels[r] == Some((3nat, 0int)) ==> homes[r] == r
}

/// The entry `s` of table `t` is an interior one of the lower half that takes
/// user access away.
pub open spec fn bars_user(labels: Seq<Label>, t: int, s: int, e: u64) -> bool {
    match labels[t] {
        Some((level, prefix)) => level > 0 && present(e) && !large(e) && e & USER == 0 && is_low(
            (level - 1) as nat,
            prefix * 512 + s,
        ),
        None => false,
    }
}

/// In the lower half, nothing below an interior entry without user access asks
/// for it.
pub open spec fn leaf_decides(mem: Seq<Page>, labels: Seq<Label>) -> bool {
    forall|t: int, s: int, k: int|
        #![trigger mem[t]@[s], mem[child_of(0, mem[t]@[s])]@[k]]
        0 <= t < mem.len() && 0 <= s < 512 && 0 <= k < 512 && bars_user(
            labels,
            t,
            s,
            mem[t]@[s],
        ) && present(mem[child_of(0, mem[t]@[s])]@[k]) ==> mem[child_of(0, mem[t]@[s])]@[k] & USER
            == 0
}

/// A page that holds nothing but zeros.
pub open spec fn is_zero(page: Page) -> bool {
    forall|s: int| 0 <= s < 512 ==> #[trigger] page@[s] == 0
}

/// The frames of a run hold nothing but zeros, and the others what they held.
pub open spec fn run_emptied(
    before: FrameAllocator,
    after: FrameAllocator,
    base: int,
    pages: int,
) -> bool {
    &&& after.frames() == before.frames()
    &&& forall|i: int|
        0 <= i < before.frames() && !(base <= i < base + pages)
            ==> #[trigger] after.contents()[i] == before.contents()[i]
    &&& run_is_zero(after, base, pages)
}

/// The frames of a run hold nothing but zeros.
pub open spec fn run_is_zero(frames: FrameAllocator, base: int, pages: int) -> bool {
    forall|i: int| base <= i < base + pages ==> is_zero(#[trigger] frames.contents()[i])
}

/// The physical frames of the machine and the page tables kept in them.
pub struct FrameAllocator {
    /// Contents of each frame.
    pub memory: Vec<Page>,
    /// Use of each frame.
    pub uses: Vec<FrameUse>,
    /// Level and prefix of each frame that serves as a table.
    pub labels: Ghost<Seq<Label>>,
    /// The entry that leads to each table of the lower half.
    pub parents: Ghost<Seq<(int, int)>>,
    /// The topmost table above each table of the lower half.
    pub homes: Ghost<Seq<int>>,
}

/// Number of frames in `uses` with the use `u`.
pub open spec fn count_use(uses: Seq<FrameUse>, u: FrameUse) -> nat
    decreases uses.len(),
{
    if uses.len() == 0 {
        0
    } else {
        count_use(uses.drop_last(), u) + if uses.last() == u {
            1nat
        } else {
            0nat
        }
    }
}

/// Taking a frame out of a use lowers its count by one.
pub proof fn count_use_changes(uses: Seq<FrameUse>, n: int, u: FrameUse, to: FrameUse)
    requires
        0 <= n < uses.len(),
        uses[n] == u,
        to != u,
    ensures
        count_use(uses.update(n, to), u) == count_use(uses, u) - 1,
    decreases uses.len(),
{
    if n == uses.len() - 1 {
        assert(uses.update(n, to).drop_last() =~= uses.drop_last());
    } else {
        assert(uses.update(n, to).drop_last() =~= uses.drop_last().update(n, to));
        count_use_changes(uses.drop_last(), n, u, to);
    }
}

/// Making a frame available raises the count of those by one.
proof fn count_free_grows(uses: Seq<FrameUse>, n: int)
    requires
        0 <= n < uses.len(),
        uses[n] != FrameUse::Free,
    ensures
        count_use(uses.update(n, FrameUse::Free), FrameUse::Free) == count_use(uses, FrameUse::Free)
            + 1,
{
    let after = uses.update(n, FrameUse::Free);
    count_use_changes(after, n, FrameUse::Free, uses[n]);
    assert(after.update(n, uses[n]) =~= uses);
}

/// Frames that no step makes available do not become more.
pub proof fn free_only_shrinks(before: Seq<FrameUse>, after: Seq<FrameUse>)
    requires
        after.len() == before.len(),
        forall|i: int|
            0 <= i < before.len() && #[trigger] after[i] == FrameUse::Free ==> before[i]
                == FrameUse::Free,
    ensures
        count_use(after, FrameUse::Free) <= count_use(before, FrameUse::Free),
    decreases before.len(),
{
    if before.len() > 0 {
        let b = before.drop_last();
        let a = after.drop_last();
        assert forall|i: int|
            0 <= i < b.len() && #[trigger] a[i] == FrameUse::Free implies b[i]
            == FrameUse::Free by {
            assert(after[i] == FrameUse::Free);
        }
        free_only_shrinks(b, a);
        assert(after[after.len() - 1] == FrameUse::Free ==> before[before.len() - 1]
            == FrameUse::Free);
    }
}

/// There are no more frames of a use than frames.
pub proof fn use_is_small(uses: Seq<FrameUse>, u: FrameUse)
    ensures
        count_use(uses, u) <= uses.len(),
    decreases uses.len(),
{
    if uses.len() > 0 {
        use_is_small(uses.drop_last(), u);
    }
}

/// A use that no frame has is counted zero times.
pub proof fn count_use_none(uses: Seq<FrameUse>, u: FrameUse)
    requires
        forall|i: int| 0 <= i < uses.len() ==> #[trigger] uses[i] != u,
    ensures
        count_use(uses, u) == 0,
    decreases uses.len(),
{
    if uses.len() > 0 {
        count_use_none(uses.drop_last(), u);
    }
}

/// The uses once `frame`, if `owner` holds it, is in quarantine.
pub open spec fn retired_use(uses: Seq<FrameUse>, frame: Frame, owner: Owner) -> Seq<FrameUse> {
    if frame.number < uses.len() && uses[frame.number as int] == FrameUse::Held(owner) {
        uses.update(frame.number as int, FrameUse::Retired(owner))
    } else {
        uses
    }
}

impl FrameAllocator {
    /// Frames ready to be handed out.
    pub open spec fn free_frames(self) -> nat {
        count_use(self.uses@, FrameUse::Free)
    }

    /// The contents of the frames, each seen as a table.
    pub open spec fn contents(self) -> Seq<Page> {
        self.memory@
    }

    /// What each frame is used for.
    pub open spec fn uses_spec(self) -> Seq<FrameUse> {
        self.uses@
    }

    /// Level and prefix of the frames that serve as tables.
    pub open spec fn labels_spec(self) -> Seq<Label> {
        self.labels@
    }

    /// Frames the allocator knows.
    pub open spec fn frames(self) -> nat {
        self.contents().len()
    }

    /// The tables are consistent, and the frames that serve as tables are the
    /// labelled ones.
    pub open spec fn wf(self) -> bool {
        &&& self.memory@.len() <= MAX_FRAMES
        &&& self.uses@.len() == self.memory@.len()
        &&& consistent(0, self.memory@, self.labels@)
        &&& sole_parents(self.memory@, self.labels@, self.parents@, self.homes@)
        &&& leaf_decides(self.memory@, self.labels@)
        &&& forall|i: int|
            0 <= i < self.labels@.len() ==> (#[trigger] self.labels@[i] is Some
                <==> self.uses@[i] is Table)
        &&& forall|i: int|
            0 <= i < self.labels@.len() && #[trigger] self.labels@[i] is Some ==> {
                &&& (self.labels@[i]->0).0 <= 3
                &&& 0 <= (self.labels@[i]->0).1
            }
    }

    /// The frames of `uses`, all empty.
    pub fn new(uses: Vec<FrameUse>) -> (made: FrameAllocator)
        requires
            uses@.len() <= MAX_FRAMES,
            forall|i: int| 0 <= i < uses@.len() ==> !(#[trigger] uses@[i] is Table),
        ensures
            made.wf(),
            made.uses_spec() == uses@,
            made.frames() == uses@.len(),
            forall|i: int| 0 <= i < uses@.len() ==> #[trigger] made.labels_spec()[i] is None,
    {
        let empty: Page = [0; 512];
        let mut memory: Vec<Page> = Vec::new();
        for i in 0..uses.len()
            invariant
                memory@.len() == i,
        {
            memory.push(empty);
        }
        FrameAllocator::over(memory, uses)
    }

    /// The frames of `uses`, with what they hold. No frame serves as a table
    /// yet.
    pub fn over(memory: Vec<Page>, uses: Vec<FrameUse>) -> (made: FrameAllocator)
        requires
            uses@.len() <= MAX_FRAMES,
            memory@.len() == uses@.len(),
            forall|i: int| 0 <= i < uses@.len() ==> !(#[trigger] uses@[i] is Table),
        ensures
            made.wf(),
            made.uses_spec() == uses@,
            made.contents() == memory@,
            forall|i: int| 0 <= i < uses@.len() ==> #[trigger] made.labels_spec()[i] is None,
    {
        let ghost labels: Seq<Label> = Seq::new(uses@.len(), |i: int| None);
        let ghost parents: Seq<(int, int)> = Seq::new(uses@.len(), |i: int| (0int, 0int));
        let ghost homes: Seq<int> = Seq::new(uses@.len(), |i: int| 0int);
        FrameAllocator {
            memory,
            uses,
            labels: Ghost(labels),
            parents: Ghost(parents),
            homes: Ghost(homes),
        }
    }

    /// A frame that serves as no table can be taken and emptied.
    proof fn emptied_stays(self, before: FrameAllocator, number: int)
        requires
            before.wf(),
            0 <= number < before.uses@.len(),
            before.uses@[number] == FrameUse::Free,
            self.uses@ == before.uses@.update(number, self.uses@[number]),
            self.uses@[number] is Held,
            self.memory@.len() == before.memory@.len(),
            forall|i: int|
                0 <= i < before.memory@.len() && i != number ==> #[trigger] self.memory@[i]
                    == before.memory@[i],
            is_zero(self.memory@[number]),
            self.labels == before.labels,
            self.parents == before.parents,
            self.homes == before.homes,
        ensures
            self.wf(),
    {
        zero_entry_bits();
        assert forall|t: int, s: int|
            0 <= t < self.memory@.len() && 0 <= s < 512 implies entry_ok(
            0,
            self.labels@,
            self.labels@[t],
            s,
            #[trigger] self.memory@[t]@[s],
        ) && sole_parent(self.labels@, self.parents@, self.homes@, t, s, self.memory@[t]@[s]) by {
            if t != number {
                assert(entry_ok(
                    0,
                    before.labels@,
                    before.labels@[t],
                    s,
                    before.memory@[t]@[s],
                ));
                assert(sole_parent(
                    before.labels@,
                    before.parents@,
                    before.homes@,
                    t,
                    s,
                    before.memory@[t]@[s],
                ));
            }
        }
    }

    /// Hands out the first free frame, emptied, on the account of `owner`.
    pub fn acquire(&mut self, owner: Owner) -> (result: Result<Frame, AllocError>)
        requires
            old(self).wf(),
        ensures
            final(self).wf(),
            final(self).labels_spec() == old(self).labels_spec(),
            final(self).parents == old(self).parents,
            final(self).homes == old(self).homes,
            match result {
                Ok(frame) => {
                    let n = frame.number as int;
                    &&& n < old(self).frames()
                    &&& old(self).uses_spec()[n] == FrameUse::Free
                    &&& forall|i: int|
                        0 <= i < n ==> #[trigger] old(self).uses_spec()[i] != FrameUse::Free
                    &&& final(self).uses_spec() == old(self).uses_spec().update(
                        n,
                        FrameUse::Held(owner),
                    )
                    &&& final(self).free_frames() == old(self).free_frames() - 1
                    &&& final(self).contents().len() == old(self).contents().len()
                    &&& forall|i: int|
                        0 <= i < old(self).frames() && i != n ==> #[trigger] final(self).contents()[i] == old(self).contents()[i]
                    &&& forall|s: int|
                        0 <= s < 512 ==> #[trigger] final(self).contents()[n]@[s] == 0
                },
                Err(_) => {
                    &&& *final(self) == *old(self)
                    &&& old(self).free_frames() == 0
                    &&& forall|i: int|
                        0 <= i < old(self).frames() ==> #[trigger] old(self).uses_spec()[i]
                            != FrameUse::Free
                },
            },
    {
        let mut number: usize = 0;
        while number < self.uses.len() && self.uses[number] != FrameUse::Free
            invariant
                *self == *old(self),
                number <= self.uses@.len(),
                forall|i: int| 0 <= i < number ==> #[trigger] self.uses@[i] != FrameUse::Free,
            decreases self.uses@.len() - number,
        {
            number += 1;
        }
        if number == self.uses.len() {
            proof {
                count_use_none(self.uses@, FrameUse::Free);
            }
            return Err(AllocError);
        }
        let ghost before = *self;
        let empty: Page = [0; 512];
        self.uses.set(number, FrameUse::Held(owner));
        self.memory.set(number, empty);
        proof {
            count_use_changes(
                before.uses@,
                number as int,
                FrameUse::Free,
                FrameUse::Held(owner),
            );
            self.emptied_stays(before, number as int);
        }
        Ok(Frame { number: number as u64 })
    }

    /// Puts a frame that `owner` holds into quarantine; any other frame is left
    /// alone.
    ///
    /// A frame that another processor may still hold a translation to is not
    /// handed out again before that is ruled out.
    pub fn retire(&mut self, frame: Frame, owner: Owner)
        requires
            old(self).wf(),
        ensures
            final(self).wf(),
            final(self).memory == old(self).memory,
            final(self).labels == old(self).labels,
            final(self).parents == old(self).parents,
            final(self).homes == old(self).homes,
            final(self).uses_spec() == retired_use(old(self).uses_spec(), frame, owner),
    {
        if frame.number < self.uses.len() as u64 && self.uses[frame.number as usize]
            == FrameUse::Held(owner) {
            self.uses.set(frame.number as usize, FrameUse::Retired(owner));
        }
    }

    /// Takes a run of `pages` frames that `owner` holds out of its hands: back
    /// to the free frames when `immediate`, else into quarantine. Frames of the
    /// run that `owner` does not hold are left alone.
    pub fn give_back_run(&mut self, base: Frame, pages: u64, owner: Owner, immediate: bool)
        requires
            old(self).wf(),
            base.number + pages <= PHYSICAL_FRAMES,
        ensures
            final(self).wf(),
            final(self).memory == old(self).memory,
            final(self).labels == old(self).labels,
            final(self).parents == old(self).parents,
            final(self).homes == old(self).homes,
            final(self).uses@ == run_given_back(
                old(self).uses@,
                base.number as int,
                pages as int,
                owner,
                if immediate {
                    FrameUse::Free
                } else {
                    FrameUse::Retired(owner)
                },
            ),
    {
        let to = if immediate {
            FrameUse::Free
        } else {
            FrameUse::Retired(owner)
        };
        let count: usize = self.uses.len();
        assert(self.uses@ =~= run_given_back(self.uses@, base.number as int, 0, owner, to));
        for page in 0..pages
            invariant
                self.wf(),
                base.number + pages <= PHYSICAL_FRAMES,
                count == self.uses@.len(),
                to == FrameUse::Free || to == FrameUse::Retired(owner),
                self.memory == old(self).memory,
                self.labels == old(self).labels,
                self.parents == old(self).parents,
                self.homes == old(self).homes,
                self.uses@ == run_given_back(
                    old(self).uses@,
                    base.number as int,
                    page as int,
                    owner,
                    to,
                ),
        {
            let number: u64 = base.number + page;
            if number < count as u64 && self.uses[number as usize] == FrameUse::Held(owner) {
                self.uses.set(number as usize, to);
            }
            assert(self.uses@ =~= run_given_back(
                old(self).uses@,
                base.number as int,
                page + 1,
                owner,
                to,
            ));
        }
    }

    /// Hands out the first run of `pages` free frames on the account of
    /// `owner`, all of them emptied.
    pub fn acquire_run(&mut self, pages: u64, owner: Owner) -> (result: Result<Frame, AllocError>)
        requires
            old(self).wf(),
            0 < pages <= MAX_FRAMES,
        ensures
            final(self).wf(),
            final(self).labels == old(self).labels,
            final(self).parents == old(self).parents,
            final(self).homes == old(self).homes,
            match result {
                Ok(base) => {
                    &&& base.number + pages <= old(self).frames()
                    &&& is_free_run(old(self).uses@, base.number as int, pages as int)
                    &&& forall|b: int|
                        0 <= b < base.number ==> !(#[trigger] is_free_run(
                            old(self).uses@,
                            b,
                            pages as int,
                        ))
                    &&& final(self).uses@ == run_taken(
                        old(self).uses@,
                        base.number as int,
                        pages as int,
                        owner,
                    )
                    &&& run_emptied(*old(self), *final(self), base.number as int, pages as int)
                },
                Err(_) => {
                    &&& *final(self) == *old(self)
                    &&& forall|b: int|
                        !(#[trigger] is_free_run(old(self).uses@, b, pages as int))
                },
            },
    {
        let count: usize = self.uses.len();
        let wanted: usize = pages as usize;
        let mut base: usize = 0;
        while base < count
            invariant
                *self == *old(self),
                self.wf(),
                count == self.uses@.len(),
                count <= MAX_FRAMES,
                wanted == pages,
                0 < wanted <= MAX_FRAMES,
                base <= count,
                forall|b: int|
                    0 <= b < base ==> !(#[trigger] is_free_run(self.uses@, b, pages as int)),
            decreases count - base,
        {
            if wanted > count - base {
                assert forall|b: int| 0 <= b implies !(#[trigger] is_free_run(
                    self.uses@,
                    b,
                    pages as int,
                )) by {}
                return Err(AllocError);
            }
            let mut length: usize = 0;
            while length < wanted && self.uses[base + length] == FrameUse::Free
                invariant
                    *self == *old(self),
                    count == self.uses@.len(),
                    count <= MAX_FRAMES,
                    base + wanted <= count,
                    length <= wanted,
                    forall|k: int|
                        base <= k < base + length ==> #[trigger] self.uses@[k] == FrameUse::Free,
                decreases wanted - length,
            {
                length += 1;
            }
            if length == wanted {
                assert(is_free_run(self.uses@, base as int, pages as int));
                self.take_run(base, wanted, owner);
                return Ok(Frame { number: base as u64 });
            }
            assert(self.uses@[base + length] != FrameUse::Free);
            base += 1;
        }
        assert forall|b: int| 0 <= b implies !(#[trigger] is_free_run(
            self.uses@,
            b,
            pages as int,
        )) by {}
        Err(AllocError)
    }

    fn take_run(&mut self, base: usize, count: usize, owner: Owner)
        requires
            old(self).wf(),
            is_free_run(old(self).uses@, base as int, count as int),
        ensures
            final(self).wf(),
            run_emptied(*old(self), *final(self), base as int, count as int),
            final(self).labels == old(self).labels,
            final(self).parents == old(self).parents,
            final(self).homes == old(self).homes,
            final(self).uses@ == run_taken(old(self).uses@, base as int, count as int, owner),
    {
        assert(self.uses@ =~= run_taken(self.uses@, base as int, 0, owner));
        for k in 0..count
            invariant
                self.wf(),
                is_free_run(old(self).uses@, base as int, count as int),
                old(self).uses@.len() <= MAX_FRAMES,
                run_emptied(*old(self), *self, base as int, k as int),
                self.labels == old(self).labels,
                self.parents == old(self).parents,
                self.homes == old(self).homes,
                self.uses@ == run_taken(old(self).uses@, base as int, k as int, owner),
        {
            assert(old(self).uses@[base + k] == FrameUse::Free);
            let ghost before = *self;
            let empty: Page = [0; 512];
            self.uses.set(base + k, FrameUse::Held(owner));
            self.memory.set(base + k, empty);
            proof {
                self.emptied_stays(before, base + k);
            }
            assert(self.uses@ =~= run_taken(old(self).uses@, base as int, k + 1, owner));
        }
    }

    /// Moves what waits in quarantine from one account to another.
    pub fn reassign_quarantine(&mut self, from: Owner, to: Owner)
        requires
            old(self).wf(),
        ensures
            final(self).wf(),
            final(self).memory == old(self).memory,
            final(self).labels == old(self).labels,
            final(self).parents == old(self).parents,
            final(self).homes == old(self).homes,
            final(self).uses@ == quarantine_moved(old(self).uses@, from, to),
    {
        let count: usize = self.uses.len();
        for i in 0..count
            invariant
                self.wf(),
                count == self.uses@.len(),
                self.memory == old(self).memory,
                self.labels == old(self).labels,
                self.parents == old(self).parents,
                self.homes == old(self).homes,
                self.uses@.len() == old(self).uses@.len(),
                forall|k: int|
                    0 <= k < count ==> #[trigger] self.uses@[k] == if k < i {
                        quarantine_moved(old(self).uses@, from, to)[k]
                    } else {
                        old(self).uses@[k]
                    },
        {
            if self.uses[i] == FrameUse::Retired(from) {
                self.uses.set(i, FrameUse::Retired(to));
            }
        }
        assert(self.uses@ =~= quarantine_moved(old(self).uses@, from, to));
    }

    /// Makes the reserved frames of a run available; returns how many there were.
    pub fn reclaim(&mut self, first: u64, pages: u64) -> (count: u64)
        requires
            old(self).wf(),
            first + pages <= PHYSICAL_FRAMES,
        ensures
            final(self).wf(),
            final(self).memory == old(self).memory,
            final(self).labels == old(self).labels,
            final(self).parents == old(self).parents,
            final(self).homes == old(self).homes,
            final(self).uses@ == run_reclaimed(old(self).uses@, first as int, pages as int),
            final(self).free_frames() == old(self).free_frames() + count,
    {
        let ghost before = self.uses@;
        let len: usize = self.uses.len();
        let mut count: u64 = 0;
        for i in 0..len
            invariant
                len == before.len(),
                first + pages <= PHYSICAL_FRAMES,
                before == old(self).uses@,
                before.len() <= MAX_FRAMES,
                self.uses@.len() == before.len(),
                self.memory == old(self).memory,
                self.labels == old(self).labels,
                self.parents == old(self).parents,
                self.homes == old(self).homes,
                count <= i,
                count_use(self.uses@, FrameUse::Free) == count_use(before, FrameUse::Free) + count,
                forall|k: int|
                    0 <= k < before.len() ==> #[trigger] self.uses@[k] == if k < i {
                        run_reclaimed(before, first as int, pages as int)[k]
                    } else {
                        before[k]
                    },
        {
            if i as u64 >= first && (i as u64) - first < pages && self.uses[i]
                == FrameUse::Reserved {
                proof {
                    count_free_grows(self.uses@, i as int);
                }
                self.uses.set(i, FrameUse::Free);
                count += 1;
            }
        }
        assert(self.uses@ =~= run_reclaimed(before, first as int, pages as int));
        count
    }

    /// Makes the frames in quarantine available; returns how many there were.
    pub fn drain_quarantine(&mut self) -> (count: u64)
        requires
            old(self).wf(),
        ensures
            final(self).wf(),
            final(self).memory == old(self).memory,
            final(self).labels == old(self).labels,
            final(self).parents == old(self).parents,
            final(self).homes == old(self).homes,
            final(self).uses@ == quarantine_drained(old(self).uses@),
            final(self).free_frames() == old(self).free_frames() + count,
    {
        let ghost before = self.uses@;
        let len: usize = self.uses.len();
        let mut count: u64 = 0;
        for i in 0..len
            invariant
                len == before.len(),
                before == old(self).uses@,
                before.len() <= MAX_FRAMES,
                self.uses@.len() == before.len(),
                self.memory == old(self).memory,
                self.labels == old(self).labels,
                self.parents == old(self).parents,
                self.homes == old(self).homes,
                count <= i,
                count_use(self.uses@, FrameUse::Free) == count_use(before, FrameUse::Free) + count,
                forall|k: int|
                    0 <= k < before.len() ==> #[trigger] self.uses@[k] == if k < i {
                        quarantine_drained(before)[k]
                    } else {
                        before[k]
                    },
        {
            match self.uses[i] {
                FrameUse::Retired(_) => {
                    proof {
                        count_free_grows(self.uses@, i as int);
                    }
                    self.uses.set(i, FrameUse::Free);
                    count += 1;
                },
                _ => {},
            }
        }
        assert(self.uses@ =~= quarantine_drained(before));
        count
    }

    /// Frames ready to be handed out.
    pub fn available(&self) -> (count: u64)
        requires
            self.wf(),
        ensures
            count == self.free_frames(),
    {
        let mut count: u64 = 0;
        for i in 0..self.uses.len()
            invariant
                self.wf(),
                count <= i <= MAX_FRAMES,
                count == count_use(self.uses@.take(i as int), FrameUse::Free),
        {
            assert(self.uses@.take(i + 1).drop_last() =~= self.uses@.take(i as int));
            if self.uses[i] == FrameUse::Free {
                count += 1;
            }
        }
        assert(self.uses@.take(self.uses@.len() as int) =~= self.uses@);
        count
    }

    /// Frames charged to `owner`: those it holds, and its tables.
    pub fn charged(&self, owner: Owner) -> (count: u64)
        requires
            self.wf(),
        ensures
            count == count_use(self.uses@, FrameUse::Held(owner)) + count_use(
                self.uses@,
                FrameUse::Table(owner),
            ),
    {
        let mut count: u64 = 0;
        for i in 0..self.uses.len()
            invariant
                self.wf(),
                count <= i <= MAX_FRAMES,
                count == count_use(self.uses@.take(i as int), FrameUse::Held(owner)) + count_use(
                    self.uses@.take(i as int),
                    FrameUse::Table(owner),
                ),
        {
            assert(self.uses@.take(i + 1).drop_last() =~= self.uses@.take(i as int));
            if self.uses[i] == FrameUse::Held(owner) || self.uses[i] == FrameUse::Table(owner) {
                count += 1;
            }
        }
        assert(self.uses@.take(self.uses@.len() as int) =~= self.uses@);
        count
    }
}

/// The uses once the reserved frames of a run are available.
pub open spec fn run_reclaimed(uses: Seq<FrameUse>, first: int, pages: int) -> Seq<FrameUse> {
    Seq::new(
        uses.len(),
        |i: int|
            if first <= i < first + pages && uses[i] == FrameUse::Reserved {
                FrameUse::Free
            } else {
                uses[i]
            },
    )
}

/// The uses once the frames in quarantine are available.
pub open spec fn quarantine_drained(uses: Seq<FrameUse>) -> Seq<FrameUse> {
    Seq::new(
        uses.len(),
        |i: int|
            if uses[i] is Retired {
                FrameUse::Free
            } else {
                uses[i]
            },
    )
}

/// The uses once the frames of a run that `owner` holds are used for `to`.
pub open spec fn run_given_back(
    uses: Seq<FrameUse>,
    base: int,
    pages: int,
    owner: Owner,
    to: FrameUse,
) -> Seq<FrameUse> {
    Seq::new(
        uses.len(),
        |i: int|
            if base <= i < base + pages && uses[i] == FrameUse::Held(owner) {
                to
            } else {
                uses[i]
            },
    )
}

/// The uses once what waits in quarantine for `from` waits for `to`.
pub open spec fn quarantine_moved(uses: Seq<FrameUse>, from: Owner, to: Owner) -> Seq<FrameUse> {
    Seq::new(
        uses.len(),
        |i: int|
            if uses[i] == FrameUse::Retired(from) {
                FrameUse::Retired(to)
            } else {
                uses[i]
            },
    )
}

/// The `pages` frames from `base` on are all free.
pub open spec fn is_free_run(uses: Seq<FrameUse>, base: int, pages: int) -> bool {
    &&& 0 <= base
    &&& base + pages <= uses.len()
    &&& forall|k: int| base <= k < base + pages ==> #[trigger] uses[k] == FrameUse::Free
}

/// The uses once `owner` holds the `pages` frames from `base` on.
pub open spec fn run_taken(uses: Seq<FrameUse>, base: int, pages: int, owner: Owner) -> Seq<
    FrameUse,
> {
    Seq::new(
        uses.len(),
        |i: int|
            if base <= i < base + pages {
                FrameUse::Held(owner)
            } else {
                uses[i]
            },
    )
}

/// `base` starts the first run of `pages` free frames.
pub open spec fn is_first_run(uses: Seq<FrameUse>, base: int, pages: int) -> bool {
    &&& is_free_run(uses, base, pages)
    &&& forall|b: int| 0 <= b < base ==> !(#[trigger] is_free_run(uses, b, pages))
}

/// There is a run of `pages` free frames.
pub open spec fn has_run(uses: Seq<FrameUse>, pages: int) -> bool {
    exists|b: int| is_free_run(uses, b, pages)
}

/// The first run of `pages` free frames.
pub open spec fn first_run(uses: Seq<FrameUse>, pages: int) -> int {
    choose|b: int| is_first_run(uses, b, pages)
}

/// There is only one first run.
pub proof fn first_run_is(uses: Seq<FrameUse>, base: int, pages: int)
    requires
        is_first_run(uses, base, pages),
    ensures
        first_run(uses, pages) == base,
        has_run(uses, pages),
{
    let b = first_run(uses, pages);
    assert(is_first_run(uses, b, pages));
}

/// Giving a run back that was just taken restores every use.
pub proof fn give_back_undoes_take(uses: Seq<FrameUse>, base: int, pages: int, owner: Owner)
    requires
        is_free_run(uses, base, pages),
    ensures
        run_given_back(
            run_taken(uses, base, pages, owner),
            base,
            pages,
            owner,
            FrameUse::Free,
        ) == uses,
{
    assert(run_given_back(
        run_taken(uses, base, pages, owner),
        base,
        pages,
        owner,
        FrameUse::Free,
    ) =~= uses);
}

/// No more frames are charged to anyone than there are.
pub proof fn charged_is_small(uses: Seq<FrameUse>, owner: Owner)
    ensures
        count_use(uses, FrameUse::Held(owner)) <= uses.len(),
        count_use(uses, FrameUse::Table(owner)) <= uses.len(),
        count_use(uses, FrameUse::Held(owner)) + count_use(uses, FrameUse::Table(owner))
            <= uses.len(),
    decreases uses.len(),
{
    if uses.len() > 0 {
        charged_is_small(uses.drop_last(), owner);
    }
}

} // verus!
