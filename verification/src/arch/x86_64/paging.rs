//! Address spaces: four-level page tables rooted at one topmost table each.
//!
//! The kernel half is not copied into each address space: the topmost slots the
//! kernel uses lead to tables that every address space *shares*, so a kernel
//! mapping installed after a domain was created is still visible in it.

use vstd::prelude::*;

use crate::mm::{
    bars_user, count_use_changes, is_low, sole_parent, Frame, FrameAllocator,
    FrameUse, Owner, Rights, RightsError, PHYSICAL_FRAMES,
};
use crate::page_table::{
    apart_within_a_period, child_of, consistent, descend, descend_and_lookup, entry_ok, is_open,
    large, lookup, lookup_same_shape, lookup_unchanged, lookup_with_new_table, page_translates,
    prefix_continues, prefix_of, present, root_prefix, same_page, slot, slot_of, table_entry_bits,
    target, way_is_open, ways_are_open, widened_entry_bits, zero_entry_bits, Label, Page, Step,
    ADDRESS_MASK, CACHE_DISABLE, HUGE, NO_EXECUTE, PRESENT, USER, VIRTUAL_SPAN, WRITABLE,
    WRITE_THROUGH,
};
use crate::protocol::PAGE_SIZE;

verus! {

/// Topmost slot of the direct map.
pub const SLOT_HHDM: usize = 256;

/// Topmost slot of the kernel's dynamic region.
pub const SLOT_DYNAMIC: usize = 257;

/// Topmost slot of the kernel image.
pub const SLOT_IMAGE: usize = 511;

/// Leaf flag: the page is writable.
pub const FLAG_WRITABLE: u64 = WRITABLE;

/// Leaf flag: the page is reachable from ring 3.
pub const FLAG_USER: u64 = USER;

/// Bytes a large entry covers.
pub const LARGE: u64 = 2 * 1024 * 1024;

/// Why a mapping request was refused.
#[derive(Clone, Copy, PartialEq, Eq, Debug, Structural)]
pub enum MapError {
    /// The rights combination is not representable or violates W^X.
    Rights(RightsError),
    /// The virtual address is not canonical or not page aligned.
    BadAddress,
    /// Something is already mapped there.
    AlreadyMapped,
    /// A large page covers the address; none is ever split.
    LargePageInTheWay,
    /// No frame was available for a page table.
    OutOfMemory,
}

impl MapError {
    /// The name [`MapError::name`] returns.
    pub open spec fn name_spec(self) -> Seq<char> {
        match self {
            MapError::Rights(e) => e.name_spec(),
            MapError::BadAddress => "bad_address"@,
            MapError::AlreadyMapped => "already_mapped"@,
            MapError::LargePageInTheWay => "large_page_in_the_way"@,
            MapError::OutOfMemory => "out_of_memory"@,
        }
    }

    /// Short name used in diagnostic records.
    pub fn name(self) -> (text: &'static str)
        ensures
            text@ == self.name_spec(),
    {
        match self {
            MapError::Rights(e) => e.name(),
            MapError::BadAddress => "bad_address",
            MapError::AlreadyMapped => "already_mapped",
            MapError::LargePageInTheWay => "large_page_in_the_way",
            MapError::OutOfMemory => "out_of_memory",
        }
    }
}

/// The upper seventeen bits of the address are all equal.
pub open spec fn is_canonical(addr: u64) -> bool {
    addr < 0x8000_0000_0000 || addr >= 0xFFFF_8000_0000_0000
}

/// Whether the processor accepts `addr` as a virtual address.
fn canonical(addr: u64) -> (yes: bool)
    ensures
        yes == is_canonical(addr),
{
    let top: u64 = addr / 0x8000_0000_0000;
    top == 0 || top == 0x1FFFF
}

/// The flags of an entry that permits `rights`.
pub open spec fn leaf_bits(rights: Rights) -> u64 {
    PRESENT | (if rights.write {
        WRITABLE
    } else {
        0
    }) | (if rights.user {
        USER
    } else {
        0
    }) | (if rights.execute {
        0
    } else {
        NO_EXECUTE
    }) | (if rights.uncacheable {
        CACHE_DISABLE | WRITE_THROUGH
    } else {
        0
    })
}

fn leaf_flags(rights: Rights) -> (flags: u64)
    ensures
        flags == leaf_bits(rights),
{
    let write: u64 = if rights.write {
        WRITABLE
    } else {
        0
    };
    let user: u64 = if rights.user {
        USER
    } else {
        0
    };
    let no_execute: u64 = if rights.execute {
        0
    } else {
        NO_EXECUTE
    };
    let uncached: u64 = if rights.uncacheable {
        CACHE_DISABLE | WRITE_THROUGH
    } else {
        0
    };
    PRESENT | write | user | no_execute | uncached
}

/// An entry with the flags of `rights` says exactly what they permit.
pub proof fn leaf_bits_say_the_rights(addr: u64, rights: Rights)
    requires
        addr % 0x1000 == 0,
        addr < 0x10_0000_0000_0000,
    ensures
        present(addr | leaf_bits(rights)),
        target(addr | leaf_bits(rights)) == addr,
        ((addr | leaf_bits(rights)) & WRITABLE != 0) == rights.write,
        ((addr | leaf_bits(rights)) & USER != 0) == rights.user,
        ((addr | leaf_bits(rights)) & NO_EXECUTE == 0) == rights.execute,
{
    let w: u64 = if rights.write {
        WRITABLE
    } else {
        0
    };
    let u: u64 = if rights.user {
        USER
    } else {
        0
    };
    let x: u64 = if rights.execute {
        0
    } else {
        NO_EXECUTE
    };
    let c: u64 = if rights.uncacheable {
        CACHE_DISABLE | WRITE_THROUGH
    } else {
        0
    };
    let e = addr | (1 | w | u | x | c);
    assert(e & 1 != 0 && e & 0x000F_FFFF_FFFF_F000 == addr && (e & 2 != 0) == (w != 0) && (e & 4
        != 0) == (u != 0) && (e & 0x8000_0000_0000_0000 == 0) == (x == 0)) by (bit_vector)
        requires
            addr % 0x1000 == 0,
            addr < 0x10_0000_0000_0000,
            w == 0 || w == 2,
            u == 0 || u == 4,
            x == 0 || x == 0x8000_0000_0000_0000,
            c == 0 || c == 16u64 | 8u64,
            e == addr | (1 | w | u | x | c),
    ;
}

/// A page-table hierarchy rooted at one topmost table.
pub struct AddressSpace {
    /// Frame of the topmost table.
    pub root: Frame,
}

/// Frame `r` holds a topmost table.
pub open spec fn is_root(frames: FrameAllocator, r: int) -> bool {
    0 <= r < frames.frames() && frames.labels_spec()[r] == Some((3nat, 0int))
}

/// The walk of the processor for `v` from the topmost table in frame `r`.
pub open spec fn walk(frames: FrameAllocator, r: int, v: u64) -> Option<(nat, u64)> {
    lookup(0, frames.contents(), r, 3, v)
}

/// In no address space does an address translate differently after than before,
/// but those that `changed` names; every address space is still there.
pub open spec fn translations_kept(
    before: FrameAllocator,
    after: FrameAllocator,
    changed: spec_fn(u64) -> bool,
) -> bool {
    &&& after.frames() == before.frames()
    &&& forall|r: int| is_root(before, r) ==> #[trigger] is_root(after, r)
    &&& forall|r: int, v: u64|
        is_root(before, r) && !changed(v) ==> #[trigger] walk(after, r, v) == walk(before, r, v)
}

/// The tables of `before` keep their labels, and all but `at` their entries;
/// the frames used for something stay used for it.
pub open spec fn extends(before: FrameAllocator, after: FrameAllocator, at: int) -> bool {
    &&& after.frames() == before.frames()
    &&& after.uses_spec().len() == before.uses_spec().len()
    &&& forall|i: int|
        0 <= i < before.frames() && #[trigger] before.labels_spec()[i] is Some ==> {
            &&& after.labels_spec()[i] == before.labels_spec()[i]
            &&& i != at ==> after.contents()[i] == before.contents()[i]
        }
    &&& forall|i: int|
        0 <= i < before.frames() && before.uses_spec()[i] != FrameUse::Free
            ==> #[trigger] after.uses_spec()[i] == before.uses_spec()[i]
}

/// No frame became a table of the lowest level.
pub open spec fn adds_no_lowest(before: FrameAllocator, after: FrameAllocator) -> bool {
    forall|i: int|
        0 <= i < before.frames() && #[trigger] after.labels_spec()[i] is Some && (
        after.labels_spec()[i]->0).0 == 0 ==> after.labels_spec()[i] == before.labels_spec()[i]
}

/// No frame is a table of the lowest level.
pub open spec fn no_lowest(frames: FrameAllocator) -> bool {
    forall|i: int|
        0 <= i < frames.frames() && #[trigger] frames.labels_spec()[i] is Some ==> (
        frames.labels_spec()[i]->0).0 > 0
}

/// `after` is `before`, with writing and perhaps user access added.
pub open spec fn is_widened(before: u64, after: u64) -> bool {
    after == before || after == before | WRITABLE || after == before | USER | WRITABLE
}

/// The entry `s` of table `t` is still there, at most widened.
pub open spec fn entry_kept(before: FrameAllocator, after: FrameAllocator, t: int, s: int) -> bool {
    &&& after.labels_spec()[t] == before.labels_spec()[t]
    &&& is_widened(before.contents()[t]@[s], after.contents()[t]@[s])
}

/// Every interior entry is still there, at most widened.
pub open spec fn interior_kept(before: FrameAllocator, after: FrameAllocator) -> bool {
    &&& after.frames() == before.frames()
    &&& forall|t: int, s: int|
        #![trigger after.contents()[t]@[s]]
        #![trigger is_interior(before, t, s)]
        0 <= t < before.frames() && 0 <= s < 512 && is_interior(before, t, s) ==> entry_kept(
            before,
            after,
            t,
            s,
        )
}

/// The entry `s` of table `t` leads to another table.
pub open spec fn is_interior(frames: FrameAllocator, t: int, s: int) -> bool {
    let e = frames.contents()[t]@[s];
    &&& frames.labels_spec()[t] matches Some((l, _)) && l > 0
    &&& present(e)
    &&& !large(e)
}

/// Every entry of the lower half that leads to table `t` permits user access.
pub open spec fn user_above(frames: FrameAllocator, t: int) -> bool {
    forall|x: int, k: int|
        0 <= x < frames.frames() && 0 <= k < 512 && bars_user(
            frames.labels_spec(),
            x,
            k,
            frames.contents()[x]@[k],
        ) ==> child_of(0, #[trigger] frames.contents()[x]@[k]) != t
}

pub proof fn interior_kept_on(a: FrameAllocator, b: FrameAllocator, c: FrameAllocator)
    requires
        interior_kept(a, b),
        interior_kept(b, c),
    ensures
        interior_kept(a, c),
{
    assert forall|t: int, s: int|
        #![trigger is_interior(a, t, s)]
        0 <= t < a.frames() && 0 <= s < 512 && is_interior(a, t, s) implies entry_kept(
        a,
        c,
        t,
        s,
    ) by {
        let e = a.contents()[t]@[s];
        let f = b.contents()[t]@[s];
        widened_entry_bits(e);
        assert(is_widened(e, f));
        let g = c.contents()[t]@[s];
        assert(is_interior(b, t, s));
        assert(is_widened(f, g));
        widened_twice(e);
        assert(is_widened(e, g));
    }
}

proof fn widened_twice(e: u64)
    ensures
        e | WRITABLE | WRITABLE == e | WRITABLE,
        e | WRITABLE | USER | WRITABLE == e | USER | WRITABLE,
        e | USER | WRITABLE | WRITABLE == e | USER | WRITABLE,
        e | USER | WRITABLE | USER | WRITABLE == e | USER | WRITABLE,
{
    assert(e | 2 | 2 == e | 2 && e | 2 | 4 | 2 == e | 4 | 2 && e | 4 | 2 | 2 == e | 4 | 2 && e | 4
        | 2 | 4 | 2 == e | 4 | 2) by (bit_vector);
}

/// The entries `k` of the tables `a` and `b` lead to one table.
pub open spec fn shares_slot(frames: FrameAllocator, a: int, b: int, k: int) -> bool {
    let e = frames.contents()[a]@[k];
    let f = frames.contents()[b]@[k];
    &&& present(e) && !large(e)
    &&& present(f) && !large(f)
    &&& target(e) == target(f)
}

/// The topmost table `r` leads to a table of its own or of another space in
/// every slot of the kernel.
pub open spec fn has_kernel_slots(frames: FrameAllocator, r: int) -> bool {
    forall|k: int| #[trigger] is_kernel_slot(k) ==> shares_slot(frames, r, r, k)
}

/// The topmost tables `r` and `kernel` lead to the same tables in every slot of
/// the kernel.
pub open spec fn shares_kernel(frames: FrameAllocator, r: int, kernel: int) -> bool {
    forall|k: int| #[trigger] is_kernel_slot(k) ==> shares_slot(frames, r, kernel, k)
}

/// Tables that shared a slot share it still.
pub proof fn sharing_stays(before: FrameAllocator, after: FrameAllocator, a: int, b: int, k: int)
    requires
        interior_kept(before, after),
        is_root(before, a),
        is_root(before, b),
        0 <= k < 512,
        shares_slot(before, a, b, k),
    ensures
        shares_slot(after, a, b, k),
{
    assert(is_interior(before, a, k));
    assert(is_interior(before, b, k));
    widened_entry_bits(before.contents()[a]@[k]);
    widened_entry_bits(before.contents()[b]@[k]);
}

/// Frames either keep their use, or were free and are tables of the kernel.
pub open spec fn kernel_tables_taken(before: FrameAllocator, after: FrameAllocator) -> bool {
    &&& after.uses_spec().len() == before.uses_spec().len()
    &&& forall|i: int|
        0 <= i < before.uses_spec().len() ==> {
            ||| #[trigger] after.uses_spec()[i] == before.uses_spec()[i]
            ||| before.uses_spec()[i] == FrameUse::Free && after.uses_spec()[i] == FrameUse::Table(
                Owner::Kernel,
            )
        }
}

/// Every table of the lower half has the entry that leads to it.
pub open spec fn rooted(frames: FrameAllocator) -> bool {
    forall|t: int|
        0 <= t < frames.frames() && #[trigger] is_low_table(frames, t) ==> {
            let (x, k) = frames.parents@[t];
            0 <= x < frames.frames() && 0 <= k < 512 && points_to(frames, x, k, t)
        }
}

/// Tables stay where they are at home, and those that came are at home in `home`
/// if `v` is an address of the lower half.
pub open spec fn homes_kept(before: FrameAllocator, after: FrameAllocator, home: int, v: u64) -> bool {
    forall|t: int|
        #![trigger after.labels_spec()[t]]
        0 <= t < before.frames() ==> home_kept(before, after, home, v, t)
}

/// Frames that were handed out and serve as no table hold what they held.
pub open spec fn data_kept(before: FrameAllocator, after: FrameAllocator) -> bool {
    forall|i: int|
        #![trigger after.contents()[i]]
        0 <= i < before.frames() && before.uses_spec()[i] is Held ==> {
            &&& after.contents()[i] == before.contents()[i]
            &&& after.uses_spec()[i] == before.uses_spec()[i]
        }
}

pub proof fn data_kept_on(a: FrameAllocator, b: FrameAllocator, c: FrameAllocator)
    requires
        data_kept(a, b),
        data_kept(b, c),
        b.frames() == a.frames(),
    ensures
        data_kept(a, c),
{
    assert forall|i: int|
        #![trigger c.contents()[i]]
        0 <= i < a.frames() && a.uses_spec()[i] is Held implies {
        &&& c.contents()[i] == a.contents()[i]
        &&& c.uses_spec()[i] == a.uses_spec()[i]
    } by {
        assert(b.contents()[i] == a.contents()[i]);
        assert(c.contents()[i] == b.contents()[i]);
    }
}

/// Every table is still there and at home where it was, and no topmost table
/// came.
pub open spec fn tables_kept(before: FrameAllocator, after: FrameAllocator) -> bool {
    &&& after.frames() == before.frames()
    &&& forall|t: int|
        #![trigger after.labels_spec()[t]]
        0 <= t < before.frames() && before.labels_spec()[t] is Some ==> table_kept(
            before,
            after,
            t,
        )
    &&& forall|r: int| is_root(after, r) ==> #[trigger] is_root(before, r)
}

/// Table `t` is still there and at home where it was.
pub open spec fn table_kept(before: FrameAllocator, after: FrameAllocator, t: int) -> bool {
    &&& after.labels_spec()[t] == before.labels_spec()[t]
    &&& after.homes@[t] == before.homes@[t]
}

proof fn tables_kept_on(a: FrameAllocator, b: FrameAllocator, c: FrameAllocator)
    requires
        tables_kept(a, b),
        tables_kept(b, c),
    ensures
        tables_kept(a, c),
{
    assert forall|t: int|
        #![trigger c.labels_spec()[t]]
        0 <= t < a.frames() && a.labels_spec()[t] is Some implies table_kept(a, c, t) by {
        let label = b.labels_spec()[t];
        assert(table_kept(a, b, t));
        assert(table_kept(b, c, t));
    }
    assert forall|r: int| is_root(c, r) implies #[trigger] is_root(a, r) by {
        assert(is_root(b, r));
    }
}

/// What [`homes_kept`] says of frame `t`.
pub open spec fn home_kept(
    before: FrameAllocator,
    after: FrameAllocator,
    home: int,
    v: u64,
    t: int,
) -> bool {
    if before.labels_spec()[t] is Some {
        &&& after.labels_spec()[t] == before.labels_spec()[t]
        &&& after.homes@[t] == before.homes@[t]
    } else {
        after.labels_spec()[t] is Some && v < 0x8000_0000_0000 ==> {
            &&& after.homes@[t] == home
            &&& is_low_table(after, t)
        }
    }
}

pub proof fn homes_kept_on(a: FrameAllocator, b: FrameAllocator, c: FrameAllocator, home: int, v: u64)
    requires
        homes_kept(a, b, home, v),
        homes_kept(b, c, home, v),
        b.frames() == a.frames(),
    ensures
        homes_kept(a, c, home, v),
{
    assert forall|t: int|
        #![trigger c.labels_spec()[t]]
        0 <= t < a.frames() implies home_kept(a, c, home, v, t) by {
        assert(home_kept(b, c, home, v, t));
        let label = b.labels_spec()[t];
        assert(home_kept(a, b, home, v, t));
    }
}

/// Frame `t` holds a table of a lower half.
pub open spec fn is_low_table(frames: FrameAllocator, t: int) -> bool {
    frames.labels_spec()[t] matches Some((l, p)) && l < 3 && is_low(l, p)
}

/// The interior entry that `v` selects in the table in frame `t` leads to frame
/// `c`, and permits writing and, if asked, user access.
pub open spec fn leads(
    frames: FrameAllocator,
    t: int,
    level: nat,
    v: u64,
    user: bool,
    c: int,
) -> bool {
    let e = frames.contents()[t]@[slot_of(v, level)];
    &&& present(e)
    &&& !large(e)
    &&& child_of(0, e) == c
    &&& is_open(e)
    &&& user ==> e & USER != 0
}

impl AddressSpace {
    /// The space is one of those that `frames` keeps.
    pub open spec fn lives_in(self, frames: FrameAllocator) -> bool {
        is_root(frames, self.root.number as int)
    }

    /// The walk of the processor for `v` in this space.
    pub open spec fn translation(self, frames: FrameAllocator, v: u64) -> Option<(nat, u64)> {
        walk(frames, self.root.number as int, v)
    }

    /// The walk for `v` down to the table at level `stop`.
    pub open spec fn way(self, frames: FrameAllocator, stop: nat, v: u64) -> Step {
        descend(0, frames.contents(), self.root.number as int, 3, stop, v)
    }

    /// Tables that are missing on the way of `v` down to `stop`.
    pub open spec fn missing(self, frames: FrameAllocator, stop: nat, v: u64) -> nat {
        match self.way(frames, stop, v) {
            Step::Missing(level) => (level - stop) as nat,
            _ => 0,
        }
    }

    /// Value that activates this space.
    pub fn cr3(&self) -> (value: u64)
        requires
            self.root.number < PHYSICAL_FRAMES,
        ensures
            value == self.root.address(),
    {
        self.root.addr()
    }

    /// Makes an empty address space on the account of `owner`.
    pub fn new(frames: &mut FrameAllocator, owner: Owner) -> (result: Result<
        AddressSpace,
        MapError,
    >)
        requires
            old(frames).wf(),
        ensures
            final(frames).wf(),
            match result {
                Ok(space) => {
                    &&& space.lives_in(*final(frames))
                    &&& !is_root(*old(frames), space.root.number as int)
                    &&& old(frames).uses_spec()[space.root.number as int] == FrameUse::Free
                    &&& final(frames).uses_spec() == old(frames).uses_spec().update(
                        space.root.number as int,
                        FrameUse::Table(owner),
                    )
                    &&& final(frames).labels_spec() == old(frames).labels_spec().update(
                        space.root.number as int,
                        Some((3nat, 0int)),
                    )
                    &&& final(frames).free_frames() == old(frames).free_frames() - 1
                    &&& forall|v: u64| #[trigger] space.translation(*final(frames), v) is None
                    &&& translations_kept(*old(frames), *final(frames), |v: u64| false)
                    &&& interior_kept(*old(frames), *final(frames))
                    &&& rooted(*old(frames)) ==> rooted(*final(frames))
                    &&& forall|t: int|
                        0 <= t < old(frames).frames() && old(frames).labels_spec()[t] is Some
                            ==> #[trigger] final(frames).homes@[t] == old(frames).homes@[t]
                    &&& forall|k: int|
                        0 <= k < 512 ==> #[trigger] final(frames).contents()[space.root.number as int]@[k] == 0
                },
                Err(e) => {
                    &&& e == MapError::OutOfMemory
                    &&& old(frames).free_frames() == 0
                    &&& *final(frames) == *old(frames)
                },
            },
    {
        match frames.acquire(owner) {
            Err(_) => Err(MapError::OutOfMemory),
            Ok(root) => {
                frames.uses.set(root.number as usize, FrameUse::Table(owner));
                proof {
                    let n = root.number as int;
                    let label: Label = Some((3nat, 0int));
                    zero_entry_bits();
                    frames.labels@ = frames.labels@.update(n, label);
                    frames.homes@ = frames.homes@.update(n, n);
                    assert(old(frames).labels@[n] is None);
                    count_use_changes(
                        old(frames).uses@,
                        n,
                        FrameUse::Free,
                        FrameUse::Table(owner),
                    );
                    assert(frames.uses@ =~= old(frames).uses@.update(n, FrameUse::Table(owner)));
                    assert forall|t: int, s: int|
                        0 <= t < frames.memory@.len() && 0 <= s < 512 implies entry_ok(
                        0,
                        frames.labels@,
                        frames.labels@[t],
                        s,
                        #[trigger] frames.memory@[t]@[s],
                    ) && sole_parent(
                        frames.labels@,
                        frames.parents@,
                        frames.homes@,
                        t,
                        s,
                        frames.memory@[t]@[s],
                    ) by {
                        if t != n {
                            assert(frames.memory@[t]@[s] == old(frames).memory@[t]@[s]);
                            assert(entry_ok(
                                0,
                                old(frames).labels@,
                                old(frames).labels@[t],
                                s,
                                old(frames).memory@[t]@[s],
                            ));
                            assert(sole_parent(
                                old(frames).labels@,
                                old(frames).parents@,
                                old(frames).homes@,
                                t,
                                s,
                                old(frames).memory@[t]@[s],
                            ));
                        }
                    }
                    assert forall|r: int, v: u64| is_root(*old(frames), r) implies is_root(
                        *frames,
                        r,
                    ) && #[trigger] walk(*frames, r, v) == walk(*old(frames), r, v) by {
                        root_prefix(v);
                        unlabelled_pages_are_ignored(
                            old(frames).memory@,
                            old(frames).labels@,
                            r,
                            3,
                            v,
                            frames.memory@,
                        );
                    }
                }
                proof {
                    let after = *frames;
                    if rooted(*old(frames)) {
                        assert forall|t: int|
                            0 <= t < after.frames() && #[trigger] is_low_table(after, t) implies {
                            let (x, k) = after.parents@[t];
                            0 <= x < after.frames() && 0 <= k < 512 && points_to(after, x, k, t)
                        } by {
                            let (x, k) = after.parents@[t];
                            assert(is_low_table(*old(frames), t));
                            assert(points_to(*old(frames), x, k, t));
                            assert(x != root.number);
                        }
                    }
                }
                Ok(AddressSpace { root })
            },
        }
    }
}

/// Pages that serve as no table can change without changing a translation.
pub proof fn unlabelled_pages_are_ignored(
    mem: Seq<Page>,
    labels: Seq<Label>,
    t: int,
    level: nat,
    v: u64,
    next: Seq<Page>,
)
    requires
        consistent(0, mem, labels),
        level <= 3,
        0 <= t < mem.len(),
        labels[t] == Some((level, prefix_of(v, level))),
        labels.len() == mem.len(),
        next.len() == mem.len(),
        forall|i: int|
            0 <= i < mem.len() && (#[trigger] labels[i]) is Some ==> next[i] == mem[i],
    ensures
        lookup(0, next, t, level, v) == lookup(0, mem, t, level, v),
    decreases level,
{
    let here = mem[t]@[slot_of(v, level)];
    assert(0 <= slot_of(v, level) < 512);
    if present(here) && level > 0 && !large(here) {
        assert(entry_ok(0, labels, labels[t], slot_of(v, level), mem[t]@[slot_of(v, level)]));
        prefix_continues(v, level);
        unlabelled_pages_are_ignored(mem, labels, child_of(0, here), (level - 1) as nat, v, next);
    }
}

/// Hanging an empty table in frame `fresh` below the absent entry `s` of the
/// table in frame `at` keeps the tables consistent and translates nothing new.
proof fn table_installed(
    before: FrameAllocator,
    after: FrameAllocator,
    at: int,
    s: int,
    fresh: int,
    label: Label,
)
    requires
        before.wf(),
        after.memory@.len() == before.memory@.len(),
        after.uses@.len() == before.uses@.len(),
        0 <= at < before.memory@.len(),
        0 <= fresh < before.memory@.len(),
        0 <= s < 512,
        before.uses@[fresh] == FrameUse::Free,
        after.uses@[fresh] is Table,
        forall|i: int|
            0 <= i < before.uses@.len() && i != fresh ==> #[trigger] after.uses@[i]
                == before.uses@[i],
        forall|i: int|
            0 <= i < before.memory@.len() && i != at && i != fresh ==> #[trigger] after.memory@[i]
                == before.memory@[i],
        forall|i: int| 0 <= i < 512 ==> #[trigger] after.memory@[fresh]@[i] == 0,
        after.memory@[at]@ == before.memory@[at]@.update(s, after.memory@[at]@[s]),
        present(after.memory@[at]@[s]),
        !large(after.memory@[at]@[s]),
        is_open(after.memory@[at]@[s]),
        after.memory@[at]@[s] & USER != 0 ==> user_above(before, at),
        target(after.memory@[at]@[s]) == fresh * 0x1000,
        !present(before.memory@[at]@[s]),
        before.labels@[at] matches Some((l, p)) && l > 0 && label == Some(
            ((l - 1) as nat, p * 512 + s),
        ),
        after.labels@ == before.labels@.update(fresh, label),
        after.parents@ == before.parents@.update(fresh, (at, s)),
        after.homes@ == before.homes@.update(fresh, before.homes@[at]),
    ensures
        after.wf(),
        translations_kept(before, after, |v: u64| false),
        extends(before, after, at),
        interior_kept(before, after),
        rooted(before) ==> rooted(after),
{
    let mem = after.memory@;
    let old_mem = before.memory@;
    zero_entry_bits();
    assert(before.labels@[fresh] is None);
    assert(child_of(0, mem[at]@[s]) == fresh);
    assert forall|t: int, k: int| 0 <= t < mem.len() && 0 <= k < 512 implies entry_ok(
        0,
        after.labels@,
        after.labels@[t],
        k,
        #[trigger] mem[t]@[k],
    ) && sole_parent(after.labels@, after.parents@, after.homes@, t, k, mem[t]@[k]) by {
        if t == fresh {
            assert(mem[t]@[k] == 0);
        } else if t == at && k == s {
        } else {
            assert(mem[t]@[k] == old_mem[t]@[k]);
            assert(entry_ok(0, before.labels@, before.labels@[t], k, old_mem[t]@[k]));
            assert(sole_parent(before.labels@, before.parents@, before.homes@, t, k, old_mem[t]@[k]));
        }
    }
    assert forall|t: int, k: int, j: int|
        #![trigger mem[t]@[k], mem[child_of(0, mem[t]@[k])]@[j]]
        0 <= t < mem.len() && 0 <= k < 512 && 0 <= j < 512 && bars_user(
            after.labels@,
            t,
            k,
            mem[t]@[k],
        ) && present(mem[child_of(0, mem[t]@[k])]@[j]) implies mem[child_of(0, mem[t]@[k])]@[j]
        & USER == 0 by {
        let c = child_of(0, mem[t]@[k]);
        assert(entry_ok(0, after.labels@, after.labels@[t], k, mem[t]@[k]));
        if t == fresh {
            assert(mem[t]@[k] == 0);
        } else if t == at && k == s {
            assert(mem[c]@[j] == 0);
        } else {
            assert(mem[t]@[k] == old_mem[t]@[k]);
            assert(bars_user(before.labels@, t, k, old_mem[t]@[k]));
            assert(entry_ok(0, before.labels@, before.labels@[t], k, old_mem[t]@[k]));
            assert(c != fresh);
            if !(c == at && j == s) {
                assert(mem[c]@[j] == old_mem[c]@[j]);
            }
        }
    }
    assert forall|r: int, v: u64| is_root(before, r) implies is_root(after, r) && #[trigger] walk(
        after,
        r,
        v,
    ) == walk(before, r, v) by {
        root_prefix(v);
        lookup_with_new_table(0, old_mem, before.labels@, r, 3, v, at, s, mem, fresh);
    }
    if rooted(before) {
        assert forall|t: int| 0 <= t < after.frames() && #[trigger] is_low_table(after, t) implies {
            let (x, k) = after.parents@[t];
            0 <= x < after.frames() && 0 <= k < 512 && points_to(after, x, k, t)
        } by {
            let (x, k) = after.parents@[t];
            if before.labels@[t] is Some {
                assert(is_low_table(before, t));
                assert(points_to(before, x, k, t));
                assert(is_interior(before, x, k));
                widened_entry_bits(before.contents()[x]@[k]);
            }
        }
    }
}

/// Replacing an interior entry by another that leads to the same table keeps
/// everything.
proof fn entry_widened(before: FrameAllocator, after: FrameAllocator, at: int, s: int)
    requires
        before.wf(),
        after.memory@.len() == before.memory@.len(),
        after.uses@ == before.uses@,
        after.labels@ == before.labels@,
        after.parents@ == before.parents@,
        after.homes@ == before.homes@,
        0 <= at < before.memory@.len(),
        0 <= s < 512,
        forall|i: int|
            0 <= i < before.memory@.len() && i != at ==> #[trigger] after.memory@[i]
                == before.memory@[i],
        after.memory@[at]@ == before.memory@[at]@.update(s, after.memory@[at]@[s]),
        before.labels@[at] matches Some((l, _)) && l > 0,
        present(before.memory@[at]@[s]) && present(after.memory@[at]@[s]),
        !large(before.memory@[at]@[s]) && !large(after.memory@[at]@[s]),
        target(before.memory@[at]@[s]) == target(after.memory@[at]@[s]),
        is_open(after.memory@[at]@[s]),
        is_widened(before.memory@[at]@[s], after.memory@[at]@[s]),
        after.memory@[at]@[s] & USER == 0 ==> before.memory@[at]@[s] & USER == 0,
        after.memory@[at]@[s] & USER != 0 ==> before.memory@[at]@[s] & USER != 0 || user_above(
            before,
            at,
        ),
    ensures
        after.wf(),
        translations_kept(before, after, |v: u64| false),
        extends(before, after, at),
        interior_kept(before, after),
        rooted(before) ==> rooted(after),
{
    let mem = after.memory@;
    let old_mem = before.memory@;
    assert forall|t: int, k: int, j: int|
        #![trigger mem[t]@[k], mem[child_of(0, mem[t]@[k])]@[j]]
        0 <= t < mem.len() && 0 <= k < 512 && 0 <= j < 512 && bars_user(
            after.labels@,
            t,
            k,
            mem[t]@[k],
        ) && present(mem[child_of(0, mem[t]@[k])]@[j]) implies mem[child_of(0, mem[t]@[k])]@[j]
        & USER == 0 by {
        let c = child_of(0, mem[t]@[k]);
        assert(entry_ok(0, before.labels@, before.labels@[t], k, old_mem[t]@[k]));
        assert(child_of(0, old_mem[t]@[k]) == c);
        assert(bars_user(before.labels@, t, k, old_mem[t]@[k]));
        if !(c == at && j == s) {
            assert(mem[c]@[j] == old_mem[c]@[j]);
        } else {
            let e = old_mem[c]@[j];
        }
    }
    assert forall|t: int, k: int| 0 <= t < mem.len() && 0 <= k < 512 implies entry_ok(
        0,
        after.labels@,
        after.labels@[t],
        k,
        #[trigger] mem[t]@[k],
    ) && sole_parent(after.labels@, after.parents@, after.homes@, t, k, mem[t]@[k]) by {
        assert(entry_ok(0, before.labels@, before.labels@[t], k, old_mem[t]@[k]));
        assert(sole_parent(before.labels@, before.parents@, before.homes@, t, k, old_mem[t]@[k]));
    }
    assert forall|r: int, v: u64| is_root(before, r) implies is_root(after, r) && #[trigger] walk(
        after,
        r,
        v,
    ) == walk(before, r, v) by {
        root_prefix(v);
        lookup_same_shape(0, old_mem, before.labels@, r, 3, v, at, s, mem);
    }
    if rooted(before) {
        assert forall|t: int| 0 <= t < after.frames() && #[trigger] is_low_table(after, t) implies {
            let (x, k) = after.parents@[t];
            0 <= x < after.frames() && 0 <= k < 512 && points_to(after, x, k, t)
        } by {
            let (x, k) = after.parents@[t];
            if before.labels@[t] is Some {
                assert(is_low_table(before, t));
                assert(points_to(before, x, k, t));
                assert(is_interior(before, x, k));
                widened_entry_bits(before.contents()[x]@[k]);
            }
        }
    }
}

/// Writing an entry that ends walks, or an absent one, changes the translation
/// of the page it covers and of no other address.
proof fn leaf_written(
    before: FrameAllocator,
    after: FrameAllocator,
    at: int,
    level: nat,
    vaddr: u64,
    e: u64,
)
    requires
        before.wf(),
        after.memory@.len() == before.memory@.len(),
        after.uses@ == before.uses@,
        after.labels@ == before.labels@,
        after.parents@ == before.parents@,
        after.homes@ == before.homes@,
        0 <= at < before.memory@.len(),
        level <= 2,
        before.labels@[at] == Some((level, prefix_of(vaddr, level))),
        level > 0 ==> large(e) || !present(e),
        present(before.memory@[at]@[slot_of(vaddr, level)]) ==> level == 0 || large(
            before.memory@[at]@[slot_of(vaddr, level)],
        ),
        present(e) && e & USER != 0 ==> user_above(before, at),
        forall|i: int|
            0 <= i < before.memory@.len() && i != at ==> #[trigger] after.memory@[i]
                == before.memory@[i],
        after.memory@[at]@ == before.memory@[at]@.update(slot_of(vaddr, level), e),
    ensures
        after.wf(),
        translations_kept(before, after, |v: u64| same_page(v, vaddr, level)),
        extends(before, after, at),
        interior_kept(before, after),
        rooted(before) ==> rooted(after),
{
    let mem = after.memory@;
    let old_mem = before.memory@;
    let s = slot_of(vaddr, level);
    assert(0 <= s < 512);
    assert forall|t: int, k: int, j: int|
        #![trigger mem[t]@[k], mem[child_of(0, mem[t]@[k])]@[j]]
        0 <= t < mem.len() && 0 <= k < 512 && 0 <= j < 512 && bars_user(
            after.labels@,
            t,
            k,
            mem[t]@[k],
        ) && present(mem[child_of(0, mem[t]@[k])]@[j]) implies mem[child_of(0, mem[t]@[k])]@[j]
        & USER == 0 by {
        let c = child_of(0, mem[t]@[k]);
        assert(mem[t]@[k] == old_mem[t]@[k]);
        assert(entry_ok(0, before.labels@, before.labels@[t], k, old_mem[t]@[k]));
        assert(bars_user(before.labels@, t, k, old_mem[t]@[k]));
        if !(c == at && j == s) {
            assert(mem[c]@[j] == old_mem[c]@[j]);
        }
    }
    assert forall|t: int, k: int| 0 <= t < mem.len() && 0 <= k < 512 implies entry_ok(
        0,
        after.labels@,
        after.labels@[t],
        k,
        #[trigger] mem[t]@[k],
    ) && sole_parent(after.labels@, after.parents@, after.homes@, t, k, mem[t]@[k]) by {
        assert(entry_ok(0, before.labels@, before.labels@[t], k, old_mem[t]@[k]));
        assert(sole_parent(before.labels@, before.parents@, before.homes@, t, k, old_mem[t]@[k]));
    }
    assert forall|r: int, v: u64|
        is_root(before, r) && !same_page(v, vaddr, level) implies #[trigger] walk(after, r, v)
        == walk(before, r, v) by {
        root_prefix(v);
        lookup_unchanged(0, old_mem, before.labels@, r, 3, v, at, s, e, mem);
    }
    if rooted(before) {
        assert forall|t: int| 0 <= t < after.frames() && #[trigger] is_low_table(after, t) implies {
            let (x, k) = after.parents@[t];
            0 <= x < after.frames() && 0 <= k < 512 && points_to(after, x, k, t)
        } by {
            let (x, k) = after.parents@[t];
            if before.labels@[t] is Some {
                assert(is_low_table(before, t));
                assert(points_to(before, x, k, t));
                assert(is_interior(before, x, k));
                widened_entry_bits(before.contents()[x]@[k]);
            }
        }
    }
}

/// An entry with user access that leads to a table is the only one in the lower
/// half that leads there.
proof fn only_way_in(frames: FrameAllocator, t: int, level: nat, v: u64, c: int)
    requires
        frames.wf(),
        1 <= level <= 3,
        0 <= t < frames.frames(),
        frames.labels@[t] == Some((level, prefix_of(v, level))),
        leads(frames, t, level, v, true, c),
    ensures
        user_above(frames, c),
{
    let s = slot_of(v, level);
    prefix_continues(v, level);
    assert(entry_ok(0, frames.labels@, frames.labels@[t], s, frames.memory@[t]@[s]));
    assert(sole_parent(frames.labels@, frames.parents@, frames.homes@, t, s, frames.memory@[t]@[s]));
    assert forall|x: int, k: int|
        0 <= x < frames.frames() && 0 <= k < 512 && bars_user(
            frames.labels_spec(),
            x,
            k,
            frames.contents()[x]@[k],
        ) implies child_of(0, #[trigger] frames.contents()[x]@[k]) != c by {
        assert(entry_ok(0, frames.labels@, frames.labels@[x], k, frames.memory@[x]@[k]));
        assert(sole_parent(
            frames.labels@,
            frames.parents@,
            frames.homes@,
            x,
            k,
            frames.memory@[x]@[k],
        ));
    }
}

/// Nothing leads to a topmost table.
proof fn nothing_above_root(frames: FrameAllocator, r: int)
    requires
        frames.wf(),
        is_root(frames, r),
    ensures
        user_above(frames, r),
{
    assert forall|x: int, k: int|
        0 <= x < frames.frames() && 0 <= k < 512 && bars_user(
            frames.labels_spec(),
            x,
            k,
            frames.contents()[x]@[k],
        ) implies child_of(0, #[trigger] frames.contents()[x]@[k]) != r by {
        assert(entry_ok(0, frames.labels@, frames.labels@[x], k, frames.memory@[x]@[k]));
    }
}

/// The table below the entry that `v` selects in the table in frame `parent`,
/// made on the account of `owner` if absent.
///
/// An interior entry has to permit at least what any leaf below it permits, so
/// it is widened here and never narrowed. Access is still decided by the leaf.
fn child(
    parent: Frame,
    level: u32,
    v: u64,
    user: bool,
    frames: &mut FrameAllocator,
    owner: Owner,
) -> (result: Result<Frame, MapError>)
    requires
        old(frames).wf(),
        1 <= level <= 3,
        parent.number < old(frames).frames(),
        old(frames).labels_spec()[parent.number as int] == Some(
            (level as nat, prefix_of(v, level as nat)),
        ),
        user ==> user_above(*old(frames), parent.number as int),
    ensures
        final(frames).wf(),
        translations_kept(*old(frames), *final(frames), |w: u64| false),
        interior_kept(*old(frames), *final(frames)),
        rooted(*old(frames)) ==> rooted(*final(frames)),
        homes_kept(*old(frames), *final(frames), old(frames).homes@[parent.number as int], v),
        extends(*old(frames), *final(frames), parent.number as int),
        forall|r: int| is_root(*final(frames), r) ==> #[trigger] is_root(*old(frames), r),
        level > 1 ==> adds_no_lowest(*old(frames), *final(frames)),
        tables_kept(*old(frames), *final(frames)),
        data_kept(*old(frames), *final(frames)),
        ({
            let e = old(frames).contents()[parent.number as int]@[slot_of(v, level as nat)];
            match result {
                Ok(below) => {
                    let c = below.number as int;
                    &&& c < final(frames).frames()
                    &&& final(frames).labels_spec()[c] == Some(
                        ((level - 1) as nat, prefix_of(v, (level - 1) as nat)),
                    )
                    &&& leads(*final(frames), parent.number as int, level as nat, v, user, c)
                    &&& user ==> user_above(*final(frames), c)
                    &&& v < 0x8000_0000_0000 ==> final(frames).homes@[c] == old(
                        frames,
                    ).homes@[parent.number as int]
                    &&& present(e) ==> {
                        &&& !large(e)
                        &&& c == child_of(0, e)
                        &&& final(frames).uses_spec() == old(frames).uses_spec()
                    }
                    &&& !present(e) ==> {
                        &&& old(frames).uses_spec()[c] == FrameUse::Free
                        &&& final(frames).uses_spec() == old(frames).uses_spec().update(
                            c,
                            FrameUse::Table(owner),
                        )
                        &&& final(frames).free_frames() == old(frames).free_frames() - 1
                        &&& forall|i: int|
                            0 <= i < 512 ==> #[trigger] final(frames).contents()[c]@[i] == 0
                    }
                },
                Err(MapError::LargePageInTheWay) => present(e) && large(e) && *final(frames)
                    == *old(frames),
                Err(MapError::OutOfMemory) => !present(e) && old(frames).free_frames() == 0
                    && *final(frames) == *old(frames),
                Err(_) => false,
            }
        }),
{
    let at: usize = parent.number as usize;
    let index: usize = slot(v, level);
    let entry: u64 = frames.memory[at][index];
    proof {
        prefix_continues(v, level as nat);
        if v < 0x8000_0000_0000 {
            low_page(v, v);
        }
        assert(entry_ok(
            0,
            frames.labels@,
            frames.labels@[at as int],
            index as int,
            frames.memory@[at as int]@[index as int],
        ));
        widened_entry_bits(entry);
    }
    if entry & PRESENT != 0 {
        if entry & HUGE != 0 {
            return Err(MapError::LargePageInTheWay);
        }
        frames.memory[at][index] = if user {
            entry | USER | WRITABLE
        } else {
            entry | WRITABLE
        };
        proof {
            entry_widened(*old(frames), *frames, at as int, index as int);
            if user {
                only_way_in(*frames, at as int, level as nat, v, child_of(0, entry));
            }
        }
        return Ok(Frame::containing(entry & ADDRESS_MASK));
    }
    match frames.acquire(owner) {
        Err(_) => Err(MapError::OutOfMemory),
        Ok(below) => {
            let plain: u64 = below.addr() | PRESENT;
            proof {
                assert(1u64 & 1 != 0 && 1u64 & 4 == 0) by (bit_vector);
                table_entry_bits(below.address() as u64, PRESENT);
                widened_entry_bits(plain);
                assert(old(frames).uses_spec()[below.number as int] == FrameUse::Free);
                assert(old(frames).labels@[below.number as int] is None);
            }
            frames.uses.set(below.number as usize, FrameUse::Table(owner));
            frames.memory[at][index] = if user {
                plain | USER | WRITABLE
            } else {
                plain | WRITABLE
            };
            proof {
                let label: Label = Some(((level - 1) as nat, prefix_of(v, (level - 1) as nat)));
                let fresh = below.number as int;
                frames.labels@ = frames.labels@.update(fresh, label);
                frames.parents@ = frames.parents@.update(fresh, (at as int, index as int));
                frames.homes@ = frames.homes@.update(fresh, frames.homes@[at as int]);
                count_use_changes(
                    old(frames).uses@,
                    fresh,
                    FrameUse::Free,
                    FrameUse::Table(owner),
                );
                assert(frames.uses@ =~= old(frames).uses@.update(fresh, FrameUse::Table(owner)));
                table_installed(
                    *old(frames),
                    *frames,
                    at as int,
                    index as int,
                    fresh,
                    label,
                );
                if user {
                    only_way_in(*frames, at as int, level as nat, v, fresh);
                }
            }
            Ok(below)
        },
    }
}

impl AddressSpace {
    /// Maps one frame at `vaddr`.
    ///
    /// Tables that were made on the way stay when the mapping fails; they
    /// translate nothing. What is mapped below a slot that other spaces share is
    /// mapped in all of them.
    pub fn map(
        &self,
        vaddr: u64,
        frame: Frame,
        rights: Rights,
        frames: &mut FrameAllocator,
        owner: Owner,
    ) -> (result: Result<(), MapError>)
        requires
            old(frames).wf(),
            self.lives_in(*old(frames)),
            frame.number < PHYSICAL_FRAMES,
        ensures
            final(frames).wf(),
            self.lives_in(*final(frames)),
            result == (if rights.fault() is Some {
                Err(MapError::Rights(rights.fault()->0))
            } else if !is_canonical(vaddr) || vaddr % 0x1000 != 0 {
                Err(MapError::BadAddress)
            } else {
                match self.translation(*old(frames), vaddr) {
                    Some((level, _)) => Err(
                        if level == 0 {
                            MapError::AlreadyMapped
                        } else {
                            MapError::LargePageInTheWay
                        },
                    ),
                    None => if old(frames).free_frames() < self.missing(*old(frames), 0, vaddr) {
                        Err(MapError::OutOfMemory)
                    } else {
                        Ok(())
                    },
                }
            }),
            self.missing(*old(frames), 0, vaddr) <= 3,
            interior_kept(*old(frames), *final(frames)),
            rooted(*old(frames)) ==> rooted(*final(frames)),
            homes_kept(*old(frames), *final(frames), self.root.number as int, vaddr),
            data_kept(*old(frames), *final(frames)),
            forall|r: int, w: u64|
                is_root(*old(frames), r) && shares_slot(
                    *old(frames),
                    r,
                    self.root.number as int,
                    slot_of(w, 3),
                ) ==> #[trigger] walk(*final(frames), r, w) == self.translation(*final(frames), w),
            translations_kept(
                *old(frames),
                *final(frames),
                |w: u64| result is Ok && same_page(w, vaddr, 0),
            ),
            forall|r: int| is_root(*final(frames), r) ==> #[trigger] is_root(*old(frames), r),
            vaddr < 0x8000_0000_0000 ==> forall|r: int, v: u64|
                is_root(*old(frames), r) && r != self.root.number ==> #[trigger] walk(
                    *final(frames),
                    r,
                    v,
                ) == walk(*old(frames), r, v),
            result is Ok ==> {
                &&& forall|w: u64|
                    same_page(w, vaddr, 0) ==> #[trigger] self.translation(*final(frames), w)
                        == Some((0nat, (frame.address() as u64) | leaf_bits(rights)))
                &&& self.path_permits(*final(frames), vaddr, rights.user)
                &&& final(frames).free_frames() == old(frames).free_frames() - self.missing(
                    *old(frames),
                    0,
                    vaddr,
                )
            },
            forall|i: int|
                0 <= i < old(frames).frames() && old(frames).uses_spec()[i] != FrameUse::Free
                    ==> #[trigger] final(frames).uses_spec()[i] == old(frames).uses_spec()[i],
            forall|i: int|
                0 <= i < old(frames).frames() && old(frames).uses_spec()[i] == FrameUse::Free
                    ==> #[trigger] final(frames).uses_spec()[i] == FrameUse::Free || final(
                    frames).uses_spec()[i] == FrameUse::Table(owner),
    {
        let result = self.install(vaddr, frame, rights, frames, owner);
        proof {
            assert forall|r: int, w: u64|
                is_root(*old(frames), r) && shares_slot(
                    *old(frames),
                    r,
                    self.root.number as int,
                    slot_of(w, 3),
                ) implies #[trigger] walk(*frames, r, w) == self.translation(*frames, w) by {
                sharing_stays(
                    *old(frames),
                    *frames,
                    r,
                    self.root.number as int,
                    slot_of(w, 3),
                );
                reveal_with_fuel(lookup, 2);
            }
        }
        result
    }

    #[verifier::rlimit(40)]
    fn install(
        &self,
        vaddr: u64,
        frame: Frame,
        rights: Rights,
        frames: &mut FrameAllocator,
        owner: Owner,
    ) -> (result: Result<(), MapError>)
        requires
            old(frames).wf(),
            self.lives_in(*old(frames)),
            frame.number < PHYSICAL_FRAMES,
        ensures
            final(frames).wf(),
            self.lives_in(*final(frames)),
            result == (if rights.fault() is Some {
                Err(MapError::Rights(rights.fault()->0))
            } else if !is_canonical(vaddr) || vaddr % 0x1000 != 0 {
                Err(MapError::BadAddress)
            } else {
                match self.translation(*old(frames), vaddr) {
                    Some((level, _)) => Err(
                        if level == 0 {
                            MapError::AlreadyMapped
                        } else {
                            MapError::LargePageInTheWay
                        },
                    ),
                    None => if old(frames).free_frames() < self.missing(*old(frames), 0, vaddr) {
                        Err(MapError::OutOfMemory)
                    } else {
                        Ok(())
                    },
                }
            }),
            self.missing(*old(frames), 0, vaddr) <= 3,
            interior_kept(*old(frames), *final(frames)),
            rooted(*old(frames)) ==> rooted(*final(frames)),
            homes_kept(*old(frames), *final(frames), self.root.number as int, vaddr),
            data_kept(*old(frames), *final(frames)),
            translations_kept(
                *old(frames),
                *final(frames),
                |w: u64| result is Ok && same_page(w, vaddr, 0),
            ),
            forall|r: int| is_root(*final(frames), r) ==> #[trigger] is_root(*old(frames), r),
            vaddr < 0x8000_0000_0000 ==> forall|r: int, v: u64|
                is_root(*old(frames), r) && r != self.root.number ==> #[trigger] walk(
                    *final(frames),
                    r,
                    v,
                ) == walk(*old(frames), r, v),
            result is Ok ==> {
                &&& forall|w: u64|
                    same_page(w, vaddr, 0) ==> #[trigger] self.translation(*final(frames), w)
                        == Some((0nat, (frame.address() as u64) | leaf_bits(rights)))
                &&& self.path_permits(*final(frames), vaddr, rights.user)
                &&& final(frames).free_frames() == old(frames).free_frames() - self.missing(
                    *old(frames),
                    0,
                    vaddr,
                )
            },
            forall|i: int|
                0 <= i < old(frames).frames() && old(frames).uses_spec()[i] != FrameUse::Free
                    ==> #[trigger] final(frames).uses_spec()[i] == old(frames).uses_spec()[i],
            forall|i: int|
                0 <= i < old(frames).frames() && old(frames).uses_spec()[i] == FrameUse::Free
                    ==> #[trigger] final(frames).uses_spec()[i] == FrameUse::Free || final(
                    frames).uses_spec()[i] == FrameUse::Table(owner),
    {
        let root = self.root;
        proof {
            descend_and_lookup(0, frames.contents(), root.number as int, 3, 0, vaddr);
        }
        if let Err(error) = rights.validate() {
            return Err(MapError::Rights(error));
        }
        if !canonical(vaddr) || vaddr % PAGE_SIZE != 0 {
            return Err(MapError::BadAddress);
        }
        proof {
            root_prefix(vaddr);
            zero_entry_bits();
            reveal_with_fuel(descend, 5);
            nothing_above_root(*frames, root.number as int);
        }
        let pdpt = match child(root, 3, vaddr, rights.user, frames, owner) {
            Ok(below) => below,
            Err(error) => return Err(error),
        };
        let ghost first = *frames;
        let pd = match child(pdpt, 2, vaddr, rights.user, frames, owner) {
            Ok(below) => below,
            Err(error) => {
                proof {
                    interior_kept_on(*old(frames), first, *frames);
                    homes_kept_on(*old(frames), first, *frames, root.number as int, vaddr);
                    data_kept_on(*old(frames), first, *frames);
                }
                return Err(error);
            },
        };
        let ghost second = *frames;
        proof {
            interior_kept_on(*old(frames), first, second);
            homes_kept_on(*old(frames), first, second, root.number as int, vaddr);
            data_kept_on(*old(frames), first, second);
        }
        let pt = match child(pd, 1, vaddr, rights.user, frames, owner) {
            Ok(below) => below,
            Err(error) => {
                proof {
                    interior_kept_on(*old(frames), second, *frames);
                    homes_kept_on(*old(frames), second, *frames, root.number as int, vaddr);
                    data_kept_on(*old(frames), second, *frames);
                }
                return Err(error);
            },
        };
        proof {
            interior_kept_on(*old(frames), second, *frames);
            homes_kept_on(*old(frames), second, *frames, root.number as int, vaddr);
            data_kept_on(*old(frames), second, *frames);
        }
        let at: usize = pt.number as usize;
        let index: usize = slot(vaddr, 0);
        if frames.memory[at][index] & PRESENT != 0 {
            return Err(MapError::AlreadyMapped);
        }
        let ghost before = *frames;
        let entry: u64 = frame.addr() | leaf_flags(rights);
        frames.memory[at][index] = entry;
        proof {
            leaf_bits_say_the_rights(frame.address() as u64, rights);
            leaf_written(before, *frames, at as int, 0, vaddr, entry);
            interior_kept_on(*old(frames), before, *frames);
            assert(data_kept(before, *frames));
            data_kept_on(*old(frames), before, *frames);
            assert(leads(*frames, root.number as int, 3, vaddr, rights.user, pdpt.number as int));
            assert(leads(*frames, pdpt.number as int, 2, vaddr, rights.user, pd.number as int));
            assert(leads(*frames, pd.number as int, 1, vaddr, rights.user, pt.number as int));
            let mem = frames.contents();
            assert(self.way(*frames, 0, vaddr) == Step::Reached(at as int));
            assert forall|w: u64| same_page(w, vaddr, 0) implies #[trigger] self.translation(
                *frames,
                w,
            ) == Some((0nat, entry)) by {
                page_translates(0, mem, root.number as int, 3, 0, vaddr, w);
            }
            if vaddr < 0x8000_0000_0000 {
                low_page(vaddr, vaddr);
                walk_stays_home(*frames, root.number as int, 3, vaddr, at as int);
                assert(frames.labels@[root.number as int] == Some((3nat, 0int)));
                assert(frames.homes@[root.number as int] == root.number);
                assert forall|r: int, v: u64|
                    is_root(*old(frames), r) && r != self.root.number implies #[trigger] walk(
                    *frames,
                    r,
                    v,
                ) == walk(*old(frames), r, v) by {
                    assert(is_root(before, r));
                    assert(walk(before, r, v) == walk(*old(frames), r, v));
                    others_unmoved(
                        before,
                        *frames,
                        root.number as int,
                        at as int,
                        vaddr,
                        r,
                        v,
                    );
                }
            }
        }
        Ok(())
    }

    /// Every interior entry on the way of `v` permits writing and, if asked,
    /// user access, so that the leaf alone decides.
    pub open spec fn path_permits(self, frames: FrameAllocator, v: u64, user: bool) -> bool {
        exists|a: int, b: int, c: int|
            {
                &&& leads(frames, self.root.number as int, 3, v, user, a)
                &&& leads(frames, a, 2, v, user, b)
                &&& leads(frames, b, 1, v, user, c)
            }
    }
}

/// The leaf alone decides what may be done with a page: no interior entry on its
/// way takes writing or execution away, and none of the lower half takes away
/// user access that the leaf gives.
pub proof fn leaf_alone_decides(frames: FrameAllocator, space: AddressSpace, v: u64)
    requires
        frames.wf(),
        space.lives_in(frames),
    ensures
        way_is_open(0, frames.contents(), space.root.number as int, 3, v, false),
        v < 0x8000_0000_0000 ==> (space.translation(frames, v) matches Some((_, e)) && e & USER
            != 0 ==> way_is_open(0, frames.contents(), space.root.number as int, 3, v, true)),
{
    let r = space.root.number as int;
    root_prefix(v);
    ways_are_open(0, frames.memory@, frames.labels@, r, 3, v);
    if v < 0x8000_0000_0000 {
        low_page(v, v);
        if let Some((_, e)) = space.translation(frames, v) {
            if e & USER != 0 {
                user_way_is_open(frames, r, 3, v);
            }
        }
    }
}

proof fn user_way_is_open(frames: FrameAllocator, t: int, level: nat, v: u64)
    requires
        frames.wf(),
        level <= 3,
        0 <= t < frames.frames(),
        frames.labels@[t] == Some((level, prefix_of(v, level))),
        is_low(0, prefix_of(v, 0)),
        is_low(1, prefix_of(v, 1)),
        is_low(2, prefix_of(v, 2)),
        lookup(0, frames.contents(), t, level, v) matches Some((_, e)) && e & USER != 0,
    ensures
        way_is_open(0, frames.contents(), t, level, v, true),
        present(frames.contents()[t]@[slot_of(v, level)]),
        frames.contents()[t]@[slot_of(v, level)] & USER != 0,
    decreases level,
{
    let s = slot_of(v, level);
    let e = frames.memory@[t]@[s];
    assert(0 <= s < 512);
    if level > 0 && !large(e) {
        assert(entry_ok(0, frames.labels@, frames.labels@[t], s, frames.memory@[t]@[s]));
        prefix_continues(v, level);
        let c = child_of(0, e);
        user_way_is_open(frames, c, (level - 1) as nat, v);
        assert(!bars_user(frames.labels@, t, s, frames.memory@[t]@[s])) by {
            let below = frames.memory@[child_of(0, frames.memory@[t]@[s])]@[slot_of(
                v,
                (level - 1) as nat,
            )];
            assert(0 <= slot_of(v, (level - 1) as nat) < 512);
        }
    }
}

/// Offset of `v` in the page that an entry at `level` covers.
pub open spec fn offset_bits(v: u64, level: nat) -> u64 {
    if level == 0 {
        v & 0xFFF
    } else if level == 1 {
        v & 0x1F_FFFF
    } else if level == 2 {
        v & 0x3FFF_FFFF
    } else {
        v & 0x7F_FFFF_FFFF
    }
}

impl AddressSpace {
    /// Resolves a virtual address to its physical address and the entry that
    /// translates it.
    pub fn translate(&self, vaddr: u64, frames: &FrameAllocator) -> (result: Option<(u64, u64)>)
        requires
            frames.wf(),
            self.lives_in(*frames),
        ensures
            result == (if !is_canonical(vaddr) {
                None
            } else {
                match self.translation(*frames, vaddr) {
                    Some((level, e)) => Some((target(e) | offset_bits(vaddr, level), e)),
                    None => None,
                }
            }),
    {
        if !canonical(vaddr) {
            return None;
        }
        let mut frame = self.root;
        let mut level: u32 = 3;
        proof {
            root_prefix(vaddr);
        }
        loop
            invariant
                frames.wf(),
                is_canonical(vaddr),
                level <= 3,
                frame.number < frames.frames(),
                frames.labels_spec()[frame.number as int] == Some(
                    (level as nat, prefix_of(vaddr, level as nat)),
                ),
                self.translation(*frames, vaddr) == lookup(
                    0,
                    frames.contents(),
                    frame.number as int,
                    level as nat,
                    vaddr,
                ),
            decreases level,
        {
            let index: usize = slot(vaddr, level);
            let entry: u64 = frames.memory[frame.number as usize][index];
            if entry & PRESENT == 0 {
                return None;
            }
            if level == 0 {
                return Some(((entry & ADDRESS_MASK) | (vaddr & 0xFFF), entry));
            }
            if entry & HUGE != 0 {
                let offset: u64 = if level == 1 {
                    vaddr & 0x1F_FFFF
                } else if level == 2 {
                    vaddr & 0x3FFF_FFFF
                } else {
                    vaddr & 0x7F_FFFF_FFFF
                };
                return Some(((entry & ADDRESS_MASK) | offset, entry));
            }
            proof {
                prefix_continues(vaddr, level as nat);
                assert(entry_ok(
                    0,
                    frames.labels@,
                    frames.labels@[frame.number as int],
                    index as int,
                    frames.memory@[frame.number as int]@[index as int],
                ));
            }
            frame = Frame::containing(entry & ADDRESS_MASK);
            level -= 1;
        }
    }

    /// Removes one mapping and returns the frame it named.
    ///
    /// Page tables are not freed: the caller may map the range again. The
    /// caller is responsible for invalidating the translation.
    pub fn unmap(&self, vaddr: u64, frames: &mut FrameAllocator) -> (result: Option<Frame>)
        requires
            old(frames).wf(),
            self.lives_in(*old(frames)),
        ensures
            final(frames).wf(),
            self.lives_in(*final(frames)),
            final(frames).uses_spec() == old(frames).uses_spec(),
            final(frames).labels_spec() == old(frames).labels_spec(),
            final(frames).homes == old(frames).homes,
            interior_kept(*old(frames), *final(frames)),
            rooted(*old(frames)) ==> rooted(*final(frames)),
            ({
                let found = self.translation(*old(frames), vaddr);
                if is_canonical(vaddr) && vaddr % 0x1000 == 0 && found is Some && (found->0).0
                    == 0 {
                    &&& result == Some(Frame { number: target((found->0).1) / 0x1000 })
                    &&& translations_kept(
                        *old(frames),
                        *final(frames),
                        |w: u64| same_page(w, vaddr, 0),
                    )
                    &&& forall|w: u64|
                        same_page(w, vaddr, 0) ==> #[trigger] self.translation(
                            *final(frames),
                            w,
                        ) is None
                    &&& vaddr < 0x8000_0000_0000 ==> forall|r: int, v: u64|
                        is_root(*old(frames), r) && r != self.root.number ==> #[trigger] walk(
                            *final(frames),
                            r,
                            v,
                        ) == walk(*old(frames), r, v)
                } else {
                    &&& result is None
                    &&& *final(frames) == *old(frames)
                }
            }),
    {
        if !canonical(vaddr) || vaddr % PAGE_SIZE != 0 {
            return None;
        }
        let mut frame = self.root;
        let mut level: u32 = 3;
        proof {
            root_prefix(vaddr);
        }
        while level > 0
            invariant
                *frames == *old(frames),
                frames.wf(),
                self.lives_in(*frames),
                is_canonical(vaddr),
                vaddr % 0x1000 == 0,
                level <= 3,
                frame.number < frames.frames(),
                frames.labels_spec()[frame.number as int] == Some(
                    (level as nat, prefix_of(vaddr, level as nat)),
                ),
                self.translation(*frames, vaddr) == lookup(
                    0,
                    frames.contents(),
                    frame.number as int,
                    level as nat,
                    vaddr,
                ),
                self.way(*frames, 0, vaddr) == descend(
                    0,
                    frames.contents(),
                    frame.number as int,
                    level as nat,
                    0,
                    vaddr,
                ),
            decreases level,
        {
            let index: usize = slot(vaddr, level);
            let entry: u64 = frames.memory[frame.number as usize][index];
            if entry & PRESENT == 0 || entry & HUGE != 0 {
                return None;
            }
            proof {
                prefix_continues(vaddr, level as nat);
                assert(entry_ok(
                    0,
                    frames.labels@,
                    frames.labels@[frame.number as int],
                    index as int,
                    frames.memory@[frame.number as int]@[index as int],
                ));
            }
            frame = Frame::containing(entry & ADDRESS_MASK);
            level -= 1;
        }
        let at: usize = frame.number as usize;
        let index: usize = slot(vaddr, 0);
        let entry: u64 = frames.memory[at][index];
        if entry & PRESENT == 0 {
            return None;
        }
        let ghost before = *frames;
        frames.memory[at][index] = 0;
        proof {
            zero_entry_bits();
            leaf_written(before, *frames, at as int, 0, vaddr, 0);
            assert forall|w: u64| same_page(w, vaddr, 0) implies #[trigger] self.translation(
                *frames,
                w,
            ) is None by {
                absent_page(before, *frames, self.root.number as int, 3, vaddr, w, at as int);
            }
            if vaddr < 0x8000_0000_0000 {
                low_page(vaddr, vaddr);
                walk_stays_home(before, self.root.number as int, 3, vaddr, at as int);
                assert(before.homes@[self.root.number as int] == self.root.number) by {
                    assert(before.labels@[self.root.number as int] == Some((3nat, 0int)));
                }
                assert forall|r: int, v: u64|
                    is_root(*old(frames), r) && r != self.root.number implies #[trigger] walk(
                    *frames,
                    r,
                    v,
                ) == walk(*old(frames), r, v) by {
                    others_unmoved(
                        before,
                        *frames,
                        self.root.number as int,
                        at as int,
                        vaddr,
                        r,
                        v,
                    );
                }
            }
        }
        Some(Frame::containing(entry & ADDRESS_MASK))
    }
}

/// Once the entry that covers a page is absent, no address of the page
/// translates.
proof fn absent_page(
    before: FrameAllocator,
    after: FrameAllocator,
    t: int,
    level: nat,
    v: u64,
    w: u64,
    at: int,
)
    requires
        before.wf(),
        level <= 3,
        same_page(w, v, 0),
        0 <= t < before.frames(),
        before.labels@[t] == Some((level, prefix_of(v, level))),
        descend(0, before.contents(), t, level, 0, v) == Step::Reached(at),
        after.frames() == before.frames(),
        0 <= at < before.frames(),
        before.labels@[at] == Some((0nat, prefix_of(v, 0))),
        forall|i: int|
            0 <= i < before.frames() && i != at ==> #[trigger] after.contents()[i]
                == before.contents()[i],
        !present(after.contents()[at]@[slot_of(v, 0)]),
    ensures
        lookup(0, after.contents(), t, level, w) is None,
    decreases level,
{
    if level > 0 {
        let e = before.contents()[t]@[slot_of(v, level)];
        assert(0 <= slot_of(v, level) < 512);
        assert(entry_ok(
            0,
            before.labels@,
            before.labels@[t],
            slot_of(v, level),
            before.memory@[t]@[slot_of(v, level)],
        ));
        prefix_continues(v, level);
        absent_page(before, after, child_of(0, e), (level - 1) as nat, v, w, at);
        crate::page_table::descend_together(0, before.contents(), t, level, 0, v, w);
        assert(after.contents()[t] == before.contents()[t]);
    }
}

/// A topmost table is reached from nowhere, so changing one changes no walk that
/// starts elsewhere.
proof fn topmost_table_is_private(
    mem: Seq<Page>,
    labels: Seq<Label>,
    t: int,
    level: nat,
    v: u64,
    at: int,
    next: Seq<Page>,
)
    requires
        consistent(0, mem, labels),
        level <= 3,
        0 <= t < mem.len(),
        labels[t] == Some((level, prefix_of(v, level))),
        0 <= at < mem.len(),
        t != at,
        labels[at] == Some((3nat, 0int)),
        next.len() == mem.len(),
        forall|i: int| 0 <= i < mem.len() && i != at ==> next[i] == mem[i],
    ensures
        lookup(0, next, t, level, v) == lookup(0, mem, t, level, v),
    decreases level,
{
    let here = mem[t]@[slot_of(v, level)];
    assert(0 <= slot_of(v, level) < 512);
    if present(here) && level > 0 && !large(here) {
        assert(entry_ok(0, labels, labels[t], slot_of(v, level), mem[t]@[slot_of(v, level)]));
        prefix_continues(v, level);
        topmost_table_is_private(mem, labels, child_of(0, here), (level - 1) as nat, v, at, next);
    }
}

/// Addresses of a page of the lower half lead through tables of the lower half.
proof fn low_page(v: u64, vaddr: u64)
    requires
        vaddr < 0x8000_0000_0000,
        same_page(v, vaddr, 0),
    ensures
        is_low(0, prefix_of(v, 0)),
        is_low(1, prefix_of(v, 1)),
        is_low(2, prefix_of(v, 2)),
{
    prefix_continues(v, 1);
    prefix_continues(v, 2);
    let x = vaddr as int;
    assert(x % 0x1_0000_0000_0000 == x);
    assert(x / 0x20_0000 < 0x400_0000) by {
        assert(x < 0x400_0000 * 0x20_0000);
    }
    assert(prefix_of(vaddr, 0) == x / 0x20_0000);
    assert(prefix_of(v, 0) < 0x400_0000);
    assert(prefix_of(v, 1) < 0x2_0000);
    assert(prefix_of(v, 2) < 256);
}

/// A walk through the lower half stays at home.
proof fn walk_stays_home(frames: FrameAllocator, t: int, level: nat, v: u64, at: int)
    requires
        frames.wf(),
        level <= 3,
        0 <= t < frames.frames(),
        frames.labels@[t] == Some((level, prefix_of(v, level))),
        is_low(0, prefix_of(v, 0)),
        is_low(1, prefix_of(v, 1)),
        is_low(2, prefix_of(v, 2)),
        descend(0, frames.contents(), t, level, 0, v) == Step::Reached(at),
    ensures
        0 <= at < frames.frames(),
        frames.labels@[at] == Some((0nat, prefix_of(v, 0))),
        frames.homes@[at] == frames.homes@[t],
    decreases level,
{
    if level > 0 {
        let s = slot_of(v, level);
        prefix_continues(v, level);
        assert(entry_ok(0, frames.labels@, frames.labels@[t], s, frames.memory@[t]@[s]));
        assert(sole_parent(
            frames.labels@,
            frames.parents@,
            frames.homes@,
            t,
            s,
            frames.memory@[t]@[s],
        ));
        walk_stays_home(frames, child_of(0, frames.memory@[t]@[s]), (level - 1) as nat, v, at);
    }
}

/// Changing a bottom table of the lower half of one space changes no walk in any
/// other.
proof fn others_unmoved(
    before: FrameAllocator,
    after: FrameAllocator,
    root: int,
    at: int,
    vaddr: u64,
    r: int,
    v: u64,
)
    requires
        before.wf(),
        vaddr < 0x8000_0000_0000,
        is_root(before, root),
        is_root(before, r),
        r != root,
        0 <= at < before.frames(),
        before.labels@[at] == Some((0nat, prefix_of(vaddr, 0))),
        before.homes@[at] == root,
        after.frames() == before.frames(),
        forall|i: int|
            0 <= i < before.frames() && i != at ==> #[trigger] after.memory@[i]
                == before.memory@[i],
        translations_kept(before, after, |w: u64| same_page(w, vaddr, 0)),
    ensures
        walk(after, r, v) == walk(before, r, v),
{
    if same_page(v, vaddr, 0) {
        low_page(v, vaddr);
        low_page(vaddr, vaddr);
        root_prefix(v);
        prefix_continues(v, 3);
        let s = slot_of(v, 3);
        let e = before.memory@[r]@[s];
        assert(entry_ok(0, before.labels@, before.labels@[r], s, before.memory@[r]@[s]));
        assert(sole_parent(
            before.labels@,
            before.parents@,
            before.homes@,
            r,
            s,
            before.memory@[r]@[s],
        ));
        assert(after.memory@[r] == before.memory@[r]);
        assert(before.homes@[r] == r);
        if present(e) && !large(e) {
            walk_survives(before, after, root, child_of(0, e), 2, v);
        }
    }
}

/// Makes the table below topmost slot `index` if it is absent.
fn ensure_slot(root: Frame, index: usize, frames: &mut FrameAllocator) -> (result: Result<
    (),
    MapError,
>)
    requires
        old(frames).wf(),
        is_root(*old(frames), root.number as int),
        index < 512,
    ensures
        final(frames).wf(),
        translations_kept(*old(frames), *final(frames), |v: u64| false),
        forall|k: int|
            0 <= k < 512 && present(old(frames).contents()[root.number as int]@[k]) ==> #[trigger]
            final(frames).contents()[root.number as int]@[k] == old(
                frames).contents()[root.number as int]@[k],
        adds_no_lowest(*old(frames), *final(frames)),
        interior_kept(*old(frames), *final(frames)),
        rooted(*old(frames)) ==> rooted(*final(frames)),
        kernel_tables_taken(*old(frames), *final(frames)),
        final(frames).free_frames() + 1 >= old(frames).free_frames(),
        match result {
            Ok(()) => present(final(frames).contents()[root.number as int]@[index as int]),
            Err(e) => {
                &&& e == MapError::OutOfMemory
                &&& !present(old(frames).contents()[root.number as int]@[index as int])
                &&& old(frames).free_frames() == 0
                &&& *final(frames) == *old(frames)
            },
        },
{
    let at: usize = root.number as usize;
    if frames.memory[at][index] & PRESENT != 0 {
        return Ok(());
    }
    match frames.acquire(Owner::Kernel) {
        Err(_) => Err(MapError::OutOfMemory),
        Ok(below) => {
            let plain: u64 = below.addr() | PRESENT;
            proof {
                assert(1u64 & 1 != 0 && 1u64 & 4 == 0) by (bit_vector);
                table_entry_bits(below.address() as u64, PRESENT);
                widened_entry_bits(plain);
                assert(old(frames).uses_spec()[below.number as int] == FrameUse::Free);
                assert(old(frames).labels@[below.number as int] is None);
            }
            frames.uses.set(below.number as usize, FrameUse::Table(Owner::Kernel));
            frames.memory[at][index] = plain | WRITABLE;
            proof {
                let label: Label = Some((2nat, index as int));
                let fresh = below.number as int;
                frames.labels@ = frames.labels@.update(fresh, label);
                frames.parents@ = frames.parents@.update(fresh, (at as int, index as int));
                frames.homes@ = frames.homes@.update(fresh, frames.homes@[at as int]);
                count_use_changes(
                    old(frames).uses@,
                    fresh,
                    FrameUse::Free,
                    FrameUse::Table(Owner::Kernel),
                );
                assert(frames.uses@ =~= old(frames).uses@.update(
                    fresh,
                    FrameUse::Table(Owner::Kernel),
                ));
                table_installed(*old(frames), *frames, at as int, index as int, fresh, label);
            }
            Ok(())
        },
    }
}

/// `index` is one of the topmost slots the kernel uses.
pub open spec fn is_kernel_slot(index: int) -> bool {
    index == SLOT_HHDM || index == SLOT_DYNAMIC || index == SLOT_IMAGE
}

/// In the space with the topmost table in frame `r`, nothing of the upper half
/// translates but what the kernel shares.
pub open spec fn upper_clear(frames: FrameAllocator, r: int) -> bool {
    forall|v: u64|
        slot_of(v, 3) >= SLOT_HHDM && !is_kernel_slot(slot_of(v, 3)) ==> (#[trigger] walk(
            frames,
            r,
            v,
        )) is None
}

/// What translates depends on the tables, not on what frames are used for.
pub proof fn uses_translate_nothing(a: FrameAllocator, b: FrameAllocator)
    requires
        a.memory == b.memory,
        a.labels == b.labels,
    ensures
        forall|r: int| #[trigger] is_root(b, r) == is_root(a, r),
        forall|r: int| #[trigger] upper_clear(b, r) == upper_clear(a, r),
{
    assert forall|r: int| #[trigger] upper_clear(b, r) == upper_clear(a, r) by {
        assert forall|v: u64| #[trigger] walk(a, r, v) == walk(b, r, v) by {}
        assert forall|v: u64| #[trigger] walk(b, r, v) == walk(a, r, v) by {}
    }
}

/// Lets topmost slot `index` of `to` lead where that of `from` leads.
fn share_slot(to: Frame, from: Frame, index: usize, frames: &mut FrameAllocator)
    requires
        old(frames).wf(),
        is_root(*old(frames), to.number as int),
        is_root(*old(frames), from.number as int),
        256 <= index < 512,
    ensures
        final(frames).wf(),
        final(frames).uses_spec() == old(frames).uses_spec(),
        final(frames).labels_spec() == old(frames).labels_spec(),
        final(frames).frames() == old(frames).frames(),
        final(frames).homes == old(frames).homes,
        final(frames).parents == old(frames).parents,
        final(frames).contents()[to.number as int]@ == old(
            frames).contents()[to.number as int]@.update(
            index as int,
            old(frames).contents()[from.number as int]@[index as int],
        ),
        forall|i: int|
            0 <= i < old(frames).frames() && i != to.number ==> #[trigger] final(
                frames).contents()[i] == old(frames).contents()[i],
        forall|r: int, v: u64|
            #![trigger walk(*final(frames), r, v)]
            is_root(*old(frames), r) ==> {
                &&& is_root(*final(frames), r)
                &&& r != to.number || slot_of(v, 3) != index ==> walk(*final(frames), r, v)
                    == walk(*old(frames), r, v)
                &&& r == to.number && slot_of(v, 3) == index ==> walk(*final(frames), r, v)
                    == walk(*old(frames), from.number as int, v)
            },
{
    let entry: u64 = frames.memory[from.number as usize][index];
    let ghost before = *frames;
    frames.memory[to.number as usize][index] = entry;
    proof {
        let at = to.number as int;
        let mem = frames.memory@;
        let old_mem = before.memory@;
        assert(entry_ok(
            0,
            before.labels@,
            before.labels@[from.number as int],
            index as int,
            old_mem[from.number as int]@[index as int],
        ));
        assert forall|t: int, k: int| 0 <= t < mem.len() && 0 <= k < 512 implies entry_ok(
            0,
            frames.labels@,
            frames.labels@[t],
            k,
            #[trigger] mem[t]@[k],
        ) && sole_parent(frames.labels@, frames.parents@, frames.homes@, t, k, mem[t]@[k]) by {
            assert(entry_ok(0, before.labels@, before.labels@[t], k, old_mem[t]@[k]));
            assert(sole_parent(before.labels@, before.parents@, before.homes@, t, k, old_mem[t]@[k]));
        }
        assert forall|t: int, k: int, j: int|
            #![trigger mem[t]@[k], mem[child_of(0, mem[t]@[k])]@[j]]
            0 <= t < mem.len() && 0 <= k < 512 && 0 <= j < 512 && bars_user(
                frames.labels@,
                t,
                k,
                mem[t]@[k],
            ) && present(mem[child_of(0, mem[t]@[k])]@[j]) implies mem[child_of(0, mem[t]@[k])]@[j]
            & USER == 0 by {
            let c = child_of(0, mem[t]@[k]);
            assert(mem[t]@[k] == old_mem[t]@[k]);
            assert(entry_ok(0, before.labels@, before.labels@[t], k, old_mem[t]@[k]));
            assert(bars_user(before.labels@, t, k, old_mem[t]@[k]));
            assert(c != at);
            assert(mem[c]@[j] == old_mem[c]@[j]);
        }
        assert forall|r: int, v: u64|
            #![trigger walk(*frames, r, v)]
            is_root(before, r) implies {
            &&& is_root(*frames, r)
            &&& r != to.number || slot_of(v, 3) != index ==> walk(*frames, r, v) == walk(
                before,
                r,
                v,
            )
            &&& r == to.number && slot_of(v, 3) == index ==> walk(*frames, r, v) == walk(
                before,
                from.number as int,
                v,
            )
        } by {
            root_prefix(v);
            if r != to.number {
                topmost_table_is_private(old_mem, before.labels@, r, 3, v, at, mem);
            } else if slot_of(v, 3) != index {
                lookup_unchanged(
                    0,
                    old_mem,
                    before.labels@,
                    r,
                    3,
                    v,
                    at,
                    index as int,
                    entry,
                    mem,
                );
            } else {
                if present(entry) && !large(entry) {
                    prefix_continues(v, 3);
                    topmost_table_is_private(
                        old_mem,
                        before.labels@,
                        child_of(0, entry),
                        2,
                        v,
                        at,
                        mem,
                    );
                }
            }
        }
    }
}

impl AddressSpace {
    /// Makes the tables below the kernel's topmost slots in this space. Called
    /// once, on the kernel's own address space.
    pub fn create_kernel_slots(&self, frames: &mut FrameAllocator) -> (result: Result<(), MapError>)
        requires
            old(frames).wf(),
            self.lives_in(*old(frames)),
        ensures
            final(frames).wf(),
            translations_kept(*old(frames), *final(frames), |v: u64| false),
            adds_no_lowest(*old(frames), *final(frames)),
            interior_kept(*old(frames), *final(frames)),
            rooted(*old(frames)) ==> rooted(*final(frames)),
            kernel_tables_taken(*old(frames), *final(frames)),
            old(frames).free_frames() >= 3 ==> result is Ok,
            final(frames).free_frames() + 3 >= old(frames).free_frames(),
            match result {
                Ok(()) => has_kernel_slots(*final(frames), self.root.number as int),
                Err(e) => e == MapError::OutOfMemory && final(frames).free_frames() == 0,
            },
    {
        let root = self.root;
        if let Err(error) = ensure_slot(root, SLOT_HHDM, frames) {
            return Err(error);
        }
        let ghost first = *frames;
        assert(forall|r: int, v: u64|
            is_root(*old(frames), r) ==> #[trigger] walk(first, r, v) == walk(*old(frames), r, v));
        if let Err(error) = ensure_slot(root, SLOT_DYNAMIC, frames) {
            proof {
                interior_kept_on(*old(frames), first, *frames);
            }
            return Err(error);
        }
        let ghost second = *frames;
        assert(forall|r: int, v: u64|
            is_root(first, r) ==> #[trigger] walk(second, r, v) == walk(first, r, v));
        let result = ensure_slot(root, SLOT_IMAGE, frames);
        proof {
            interior_kept_on(*old(frames), first, second);
            interior_kept_on(*old(frames), second, *frames);
            if result is Ok {
                let r = root.number as int;
                assert(is_root(first, r) && is_root(second, r) && is_root(*frames, r));
                assert forall|k: int| #[trigger] is_kernel_slot(k) implies shares_slot(
                    *frames,
                    r,
                    r,
                    k,
                ) by {
                    assert(present(frames.contents()[r]@[k]));
                    assert(entry_ok(0, frames.labels@, frames.labels@[r], k, frames.memory@[r]@[k]));
                }
            }
        }
        result
    }

    /// Lets this space's kernel slots lead to the kernel's shared tables.
    ///
    /// Sharing rather than copying is what makes a kernel mapping made after
    /// this space existed reachable from inside it.
    pub fn attach_kernel(&self, kernel: &AddressSpace, frames: &mut FrameAllocator)
        requires
            old(frames).wf(),
            self.lives_in(*old(frames)),
            kernel.lives_in(*old(frames)),
        ensures
            final(frames).wf(),
            self.lives_in(*final(frames)),
            kernel.lives_in(*final(frames)),
            final(frames).uses_spec() == old(frames).uses_spec(),
            final(frames).labels_spec() == old(frames).labels_spec(),
            forall|k: int|
                0 <= k < 512 ==> #[trigger] final(frames).contents()[self.root.number as int]@[k]
                    == if is_kernel_slot(k) {
                    old(frames).contents()[kernel.root.number as int]@[k]
                } else {
                    old(frames).contents()[self.root.number as int]@[k]
                },
            final(frames).frames() == old(frames).frames(),
            final(frames).homes == old(frames).homes,
            forall|i: int|
                0 <= i < old(frames).frames() && i != self.root.number ==> #[trigger] final(frames).contents()[i] == old(frames).contents()[i],
            self.root != kernel.root && has_kernel_slots(*old(frames), kernel.root.number as int)
                ==> shares_kernel(
                *final(frames),
                self.root.number as int,
                kernel.root.number as int,
            ),
            rooted(*old(frames)) ==> rooted(*final(frames)),
            forall|r: int, v: u64|
                #![trigger walk(*final(frames), r, v)]
                is_root(*old(frames), r) ==> walk(*final(frames), r, v) == if r
                    == self.root.number && is_kernel_slot(slot_of(v, 3)) {
                    walk(*old(frames), kernel.root.number as int, v)
                } else {
                    walk(*old(frames), r, v)
                },
    {
        let to = self.root;
        let from = kernel.root;
        share_slot(to, from, SLOT_HHDM, frames);
        let ghost first = *frames;
        share_slot(to, from, SLOT_DYNAMIC, frames);
        let ghost second = *frames;
        share_slot(to, from, SLOT_IMAGE, frames);
        proof {
            assert forall|r: int, v: u64|
                #![trigger walk(*frames, r, v)]
                is_root(*old(frames), r) implies walk(*frames, r, v) == if r == self.root.number
                && is_kernel_slot(slot_of(v, 3)) {
                walk(*old(frames), kernel.root.number as int, v)
            } else {
                walk(*old(frames), r, v)
            } by {
                let k = kernel.root.number as int;
                let a = walk(first, r, v);
                let b = walk(second, r, v);
                let c = walk(first, k, v);
                let d = walk(second, k, v);
            }
            let old_mem = old(frames).memory@;
            let mem = frames.memory@;
            if rooted(*old(frames)) {
                assert forall|t: int| 0 <= t < frames.frames() && #[trigger] is_low_table(*frames, t) implies {
                    let (x, k) = frames.parents@[t];
                    0 <= x < frames.frames() && 0 <= k < 512 && points_to(*frames, x, k, t)
                } by {
                    let (x, k) = frames.parents@[t];
                    assert(is_low_table(*old(frames), t));
                    assert(points_to(*old(frames), x, k, t));
                    assert(entry_ok(
                        0,
                        old(frames).labels@,
                        old(frames).labels@[x],
                        k,
                        old_mem[x]@[k],
                    ));
                    assert(x == to.number ==> k < 256);
                    assert(mem[x]@[k] == old_mem[x]@[k]);
                }
            }
            if self.root != kernel.root && has_kernel_slots(
                *old(frames),
                kernel.root.number as int,
            ) {
                assert forall|k: int| #[trigger] is_kernel_slot(k) implies shares_slot(
                    *frames,
                    self.root.number as int,
                    kernel.root.number as int,
                    k,
                ) by {
                    assert(shares_slot(
                        *old(frames),
                        kernel.root.number as int,
                        kernel.root.number as int,
                        k,
                    ));
                    assert(mem[to.number as int]@[k] == old_mem[from.number as int]@[k]);
                    assert(mem[from.number as int] == old_mem[from.number as int]);
                }
            }
        }
    }
}

/// Two address spaces whose topmost entries for an address lead to the same
/// table translate the address alike, whatever is mapped below it later.
pub proof fn shared_slots_translate_alike(
    frames: FrameAllocator,
    a: AddressSpace,
    b: AddressSpace,
    v: u64,
)
    requires
        present(frames.contents()[a.root.number as int]@[slot_of(v, 3)]),
        present(frames.contents()[b.root.number as int]@[slot_of(v, 3)]),
        !large(frames.contents()[a.root.number as int]@[slot_of(v, 3)]),
        !large(frames.contents()[b.root.number as int]@[slot_of(v, 3)]),
        target(frames.contents()[a.root.number as int]@[slot_of(v, 3)]) == target(
            frames.contents()[b.root.number as int]@[slot_of(v, 3)],
        ),
    ensures
        a.translation(frames, v) == b.translation(frames, v),
{
    reveal_with_fuel(lookup, 2);
}

/// Unmapping the page that a frame was mapped at gives that frame back: the
/// entry a mapping writes holds the address of its frame, and its flags say
/// exactly what the rights permit.
pub proof fn mapped_frame_comes_back(frame: Frame, rights: Rights)
    requires
        frame.number < PHYSICAL_FRAMES,
    ensures
        target((frame.address() as u64) | leaf_bits(rights)) / 0x1000 == frame.number,
{
    leaf_bits_say_the_rights(frame.address() as u64, rights);
}

/// A translated address keeps its offset in the page.
pub proof fn offset_is_kept(e: u64, v: u64)
    ensures
        (target(e) | offset_bits(v, 0)) == target(e) + v % 0x1000,
{
    assert((e & 0x000F_FFFF_FFFF_F000) | (v & 0xFFF) == (e & 0x000F_FFFF_FFFF_F000) + v % 0x1000)
        by (bit_vector);
}

/// The entry of a large page that permits `rights`.
pub open spec fn large_bits(pa: u64, rights: Rights) -> u64 {
    pa | leaf_bits(rights) | HUGE
}

proof fn large_entry_bits(pa: u64, rights: Rights)
    requires
        pa % LARGE == 0,
    ensures
        present(large_bits(pa, rights)),
        large(large_bits(pa, rights)),
        large_bits(pa, rights) & USER != 0 ==> rights.user,
{
    let w: u64 = if rights.write {
        WRITABLE
    } else {
        0
    };
    let u: u64 = if rights.user {
        USER
    } else {
        0
    };
    let x: u64 = if rights.execute {
        0
    } else {
        NO_EXECUTE
    };
    let c: u64 = if rights.uncacheable {
        CACHE_DISABLE | WRITE_THROUGH
    } else {
        0
    };
    assert((pa | (1 | w | u | x | c) | 128) & 1 != 0 && (pa | (1 | w | u | x | c) | 128) & 128
        != 0) by (bit_vector);
    assert(16u64 | 8u64 == 24) by (bit_vector);
    assert((pa | (1 | w | u | x | c) | 128) & 4 == u & 4) by (bit_vector)
        requires
            pa % 0x20_0000 == 0,
            w == 0 || w == 2,
            x == 0 || x == 0x8000_0000_0000_0000,
            c == 0 || c == 24,
    ;
    assert(0u64 & 4 == 0) by (bit_vector);
}

/// Large page `i` of a range that starts at `start`.
pub open spec fn large_page_at(start: u64, i: int) -> u64 {
    (start + i * 0x20_0000) as u64
}

/// `v` lies in one of the first `done` large pages of the range at `vaddr`.
pub open spec fn in_large_range(v: u64, vaddr: u64, done: int) -> bool {
    exists|i: int| 0 <= i < done && #[trigger] same_page(v, large_page_at(vaddr, i), 1)
}

/// The table a walk arrives at is the one its address selects.
proof fn way_is_labelled(frames: FrameAllocator, t: int, level: nat, stop: nat, v: u64)
    requires
        frames.wf(),
        stop <= level <= 3,
        0 <= t < frames.frames(),
        frames.labels_spec()[t] == Some((level, prefix_of(v, level))),
    ensures
        descend(0, frames.contents(), t, level, stop, v) matches Step::Reached(r) ==> 0 <= r
            < frames.frames() && frames.labels_spec()[r] == Some((stop, prefix_of(v, stop))),
    decreases level,
{
    let s = slot_of(v, level);
    let e = frames.memory@[t]@[s];
    assert(0 <= s < 512);
    if level > stop && present(e) && !large(e) {
        assert(entry_ok(0, frames.labels@, frames.labels@[t], s, frames.memory@[t]@[s]));
        prefix_continues(v, level);
        way_is_labelled(frames, child_of(0, e), (level - 1) as nat, stop, v);
    }
}

/// The position of large page `x` among those a hierarchy tells apart.
proof fn large_page_number(v: u64, x: int)
    requires
        v == x * 0x20_0000,
    ensures
        prefix_of(v, 0) == x % 0x800_0000,
{
    let q = x / 0x800_0000;
    let r = x % 0x800_0000;
    assert(v == q * 0x1_0000_0000_0000 + r * 0x20_0000);
    assert(v as int % 0x1_0000_0000_0000 == r * 0x20_0000);
}

/// Large pages of one range are apart, unless the range is longer than the
/// addresses a hierarchy tells apart.
proof fn large_pages_are_apart(vaddr: u64, k: int, i: int)
    requires
        0 <= k < i,
        vaddr % LARGE == 0,
        vaddr + i * 0x20_0000 <= u64::MAX,
        i * 0x20_0000 < VIRTUAL_SPAN,
    ensures
        !same_page(large_page_at(vaddr, i), large_page_at(vaddr, k), 1),
{
    let far = large_page_at(vaddr, i);
    let near = large_page_at(vaddr, k);
    let n = vaddr as int / 0x20_0000;
    assert(prefix_of(far, 0) != prefix_of(near, 0)) by {
        assert(vaddr == n * 0x20_0000);
        large_page_number(far, n + i);
        large_page_number(near, n + k);
        apart_within_a_period(n + i, n + k);
    }
    assert(prefix_of(far, 1) * 512 + slot_of(far, 1) == prefix_of(far, 0)) by {
        prefix_continues(far, 1);
    }
    assert(prefix_of(near, 1) * 512 + slot_of(near, 1) == prefix_of(near, 0)) by {
        prefix_continues(near, 1);
    }
}

impl AddressSpace {
    /// The entry that `v` selects at level one is present.
    pub open spec fn occupied(self, frames: FrameAllocator, v: u64) -> bool {
        self.way(frames, 1, v) matches Step::Reached(t) && present(
            frames.contents()[t]@[slot_of(v, 1)],
        )
    }

    /// Between `before` and `after` the first `done` large pages of the range
    /// were mapped in this space, and no address outside them translates
    /// differently in any space.
    pub open spec fn large_pages_mapped(
        self,
        before: FrameAllocator,
        after: FrameAllocator,
        vaddr: u64,
        phys: u64,
        done: int,
        rights: Rights,
    ) -> bool {
        &&& translations_kept(before, after, |w: u64| in_large_range(w, vaddr, done))
        &&& forall|i: int, w: u64|
            0 <= i < done && #[trigger] same_page(w, large_page_at(vaddr, i), 1)
                ==> self.translation(after, w) == Some(
                (1nat, large_bits(large_page_at(phys, i), rights)),
            )
    }

    /// The frames hold no table that a range of large pages could meet, and
    /// nothing in the range translates.
    pub open spec fn takes_large_range(
        self,
        frames: FrameAllocator,
        vaddr: u64,
        count: int,
    ) -> bool {
        &&& no_lowest(frames)
        &&& count * 0x20_0000 <= VIRTUAL_SPAN
        &&& forall|i: int|
            0 <= i < count ==> #[trigger] self.translation(frames, large_page_at(vaddr, i)) is None
    }

    /// Where no table of the lowest level is, an address that does not
    /// translate has room for a large page.
    proof fn untranslated_is_free(self, frames: FrameAllocator, v: u64)
        requires
            frames.wf(),
            self.lives_in(frames),
            no_lowest(frames),
            self.translation(frames, v) is None,
        ensures
            !(self.way(frames, 1, v) is Large),
            !self.occupied(frames, v),
    {
        let root = self.root.number as int;
        root_prefix(v);
        descend_and_lookup(0, frames.contents(), root, 3, 1, v);
        way_is_labelled(frames, root, 3, 1, v);
        if let Step::Reached(t) = self.way(frames, 1, v) {
            let s = slot_of(v, 1);
            assert(0 <= s < 512);
            assert(entry_ok(
                0,
                frames.labels@,
                frames.labels@[t],
                s,
                frames.memory@[t]@[s],
            ));
            if present(frames.memory@[t]@[s]) && !large(frames.memory@[t]@[s]) {
                assert(frames.labels_spec()[child_of(0, frames.memory@[t]@[s])] is Some);
            }
        }
    }

    /// Why the large page at `v` cannot be mapped.
    pub open spec fn large_page_refused(self, frames: FrameAllocator, v: u64, e: MapError) -> bool {
        match e {
            MapError::LargePageInTheWay => self.way(frames, 1, v) is Large,
            MapError::AlreadyMapped => self.occupied(frames, v),
            MapError::OutOfMemory => self.translation(frames, v) is None && frames.free_frames()
                == 0,
            _ => false,
        }
    }

    fn map_large(&self, va: u64, pa: u64, rights: Rights, frames: &mut FrameAllocator) -> (result:
        Result<(), MapError>)
        requires
            old(frames).wf(),
            self.lives_in(*old(frames)),
            pa % LARGE == 0,
        ensures
            final(frames).wf(),
            self.lives_in(*final(frames)),
            match self.way(*old(frames), 1, va) {
                Step::Large(_) => result == Err::<(), MapError>(MapError::LargePageInTheWay),
                Step::Reached(_) => result == (if self.occupied(*old(frames), va) {
                    Err(MapError::AlreadyMapped)
                } else {
                    Ok(())
                }),
                Step::Missing(_) => result == (if old(frames).free_frames() < self.missing(
                    *old(frames),
                    1,
                    va,
                ) {
                    Err(MapError::OutOfMemory)
                } else {
                    Ok(())
                }),
            },
            translations_kept(
                *old(frames),
                *final(frames),
                |w: u64| result is Ok && same_page(w, va, 1),
            ),
            result matches Err(e) ==> self.large_page_refused(*final(frames), va, e),
            interior_kept(*old(frames), *final(frames)),
            rooted(*old(frames)) ==> rooted(*final(frames)),
            kernel_tables_taken(*old(frames), *final(frames)),
            tables_kept(*old(frames), *final(frames)),
            adds_no_lowest(*old(frames), *final(frames)),
            self.missing(*old(frames), 1, va) <= 2,
            result is Ok ==> {
                &&& self.translation(*old(frames), va) is None
                &&& final(frames).free_frames() == old(frames).free_frames() - self.missing(
                    *old(frames),
                    1,
                    va,
                )
                &&& forall|w: u64|
                    same_page(w, va, 1) ==> #[trigger] self.translation(*final(frames), w) == Some(
                        (1nat, large_bits(pa, rights)),
                    )
            },
    {
        let root = self.root;
        proof {
            descend_and_lookup(0, frames.contents(), root.number as int, 3, 1, va);
            root_prefix(va);
            zero_entry_bits();
            reveal_with_fuel(descend, 4);
            nothing_above_root(*frames, root.number as int);
        }
        let pdpt = match child(root, 3, va, rights.user, frames, Owner::Kernel) {
            Ok(below) => below,
            Err(error) => return Err(error),
        };
        let ghost middle = *frames;
        let pd = match child(pdpt, 2, va, rights.user, frames, Owner::Kernel) {
            Ok(below) => below,
            Err(error) => {
                proof {
                    assert(leads(middle, root.number as int, 3, va, rights.user, pdpt.number as int));
                    assert(leads(*frames, root.number as int, 3, va, rights.user, pdpt.number as int));
                    interior_kept_on(*old(frames), middle, *frames);
                    tables_kept_on(*old(frames), middle, *frames);
                    let a = walk(middle, root.number as int, va);
                    let b = walk(*frames, root.number as int, va);
                }
                return Err(error);
            },
        };
        let at: usize = pd.number as usize;
        let index: usize = slot(va, 1);
        proof {
            assert(leads(*frames, root.number as int, 3, va, rights.user, pdpt.number as int));
            assert(leads(*frames, pdpt.number as int, 2, va, rights.user, pd.number as int));
            assert(self.way(*frames, 1, va) == Step::Reached(at as int));
            interior_kept_on(*old(frames), middle, *frames);
            tables_kept_on(*old(frames), middle, *frames);
        }
        if frames.memory[at][index] & PRESENT != 0 {
            return Err(MapError::AlreadyMapped);
        }
        let ghost before = *frames;
        let entry: u64 = pa | leaf_flags(rights) | HUGE;
        frames.memory[at][index] = entry;
        proof {
            large_entry_bits(pa, rights);
            leaf_written(before, *frames, at as int, 1, va, entry);
            interior_kept_on(*old(frames), before, *frames);
            assert(tables_kept(before, *frames));
            tables_kept_on(*old(frames), before, *frames);
            assert(leads(*frames, root.number as int, 3, va, rights.user, pdpt.number as int));
            assert(leads(*frames, pdpt.number as int, 2, va, rights.user, pd.number as int));
            assert(self.way(*frames, 1, va) == Step::Reached(at as int));
            assert forall|w: u64| same_page(w, va, 1) implies #[trigger] self.translation(
                *frames,
                w,
            ) == Some((1nat, entry)) by {
                page_translates(0, frames.contents(), root.number as int, 3, 1, va, w);
            }
        }
        Ok(())
    }

    /// Maps `count` large pages starting at `vaddr` and `phys`, in order, up to
    /// the first that cannot be mapped.
    ///
    /// Only used for the kernel's own direct map and configuration window, where
    /// the mapping never has to be split.
    pub fn map_large_range(
        &self,
        vaddr: u64,
        phys: u64,
        count: u64,
        rights: Rights,
        frames: &mut FrameAllocator,
    ) -> (result: Result<(), MapError>)
        requires
            old(frames).wf(),
            self.lives_in(*old(frames)),
            vaddr + count * 0x20_0000 <= 0x1_0000_0000_0000_0000,
            phys + count * 0x20_0000 <= 0x1_0000_0000_0000_0000,
        ensures
            final(frames).wf(),
            self.lives_in(*final(frames)),
            if rights.fault() is Some {
                &&& result == Err::<(), MapError>(MapError::Rights(rights.fault()->0))
                &&& *final(frames) == *old(frames)
            } else if vaddr % LARGE != 0 || phys % LARGE != 0 {
                &&& result == Err::<(), MapError>(MapError::BadAddress)
                &&& *final(frames) == *old(frames)
            } else {
                exists|done: int| #[trigger]
                    self.large_pages_mapped(
                        *old(frames),
                        *final(frames),
                        vaddr,
                        phys,
                        done,
                        rights,
                    ) && match result {
                        Ok(()) => done == count,
                        Err(e) => {
                            &&& 0 <= done < count
                            &&& self.large_page_refused(
                                *final(frames),
                                large_page_at(vaddr, done),
                                e,
                            )
                        },
                    }
            },
            adds_no_lowest(*old(frames), *final(frames)),
            interior_kept(*old(frames), *final(frames)),
            rooted(*old(frames)) ==> rooted(*final(frames)),
            kernel_tables_taken(*old(frames), *final(frames)),
            tables_kept(*old(frames), *final(frames)),
            result is Ok ==> final(frames).free_frames() + 2 * count >= old(frames).free_frames(),
            self.takes_large_range(*old(frames), vaddr, count as int) && old(frames).free_frames()
                >= 2 * count && rights.fault() is None && vaddr % LARGE == 0 && phys % LARGE == 0
                ==> result is Ok,
    {
        if let Err(error) = rights.validate() {
            return Err(MapError::Rights(error));
        }
        if vaddr % LARGE != 0 || phys % LARGE != 0 {
            return Err(MapError::BadAddress);
        }
        assert(self.large_pages_mapped(*old(frames), *frames, vaddr, phys, 0, rights));
        for i in 0..count
            invariant
                frames.wf(),
                self.lives_in(*frames),
                self.lives_in(*old(frames)),
                rights.fault() is None,
                vaddr % LARGE == 0 && phys % LARGE == 0,
                vaddr + count * 0x20_0000 <= 0x1_0000_0000_0000_0000,
                phys + count * 0x20_0000 <= 0x1_0000_0000_0000_0000,
                self.large_pages_mapped(*old(frames), *frames, vaddr, phys, i as int, rights),
                adds_no_lowest(*old(frames), *frames),
                interior_kept(*old(frames), *frames),
                rooted(*old(frames)) ==> rooted(*frames),
                kernel_tables_taken(*old(frames), *frames),
                tables_kept(*old(frames), *frames),
                frames.frames() == old(frames).frames(),
                frames.free_frames() + 2 * i >= old(frames).free_frames(),
        {
            let ghost before = *frames;
            let va: u64 = vaddr + i * 0x20_0000;
            let pa: u64 = phys + i * 0x20_0000;
            assert(va == large_page_at(vaddr, i as int));
            assert(pa == large_page_at(phys, i as int));
            assert(pa % LARGE == 0) by {
                assert(phys as int % 0x20_0000 == 0);
                assert((phys + i * 0x20_0000) % 0x20_0000 == 0);
            }
            proof {
                if self.takes_large_range(*old(frames), vaddr, count as int) {
                    if in_large_range(va, vaddr, i as int) {
                        let k = choose|k: int|
                            0 <= k < i && #[trigger] same_page(va, large_page_at(vaddr, k), 1);
                        large_pages_are_apart(vaddr, k, i as int);
                    }
                    assert(self.translation(*old(frames), large_page_at(vaddr, i as int)) is None);
                    assert(walk(before, self.root.number as int, va) == walk(
                        *old(frames),
                        self.root.number as int,
                        va,
                    ));
                    self.untranslated_is_free(before, va);
                }
            }
            match self.map_large(va, pa, rights, frames) {
                Ok(()) => {
                    proof {
                        interior_kept_on(*old(frames), before, *frames);
                        tables_kept_on(*old(frames), before, *frames);
                        self.large_range_step(
                            *old(frames),
                            before,
                            *frames,
                            vaddr,
                            phys,
                            i as int,
                            rights,
                        );
                    }
                },
                Err(error) => {
                    proof {
                        interior_kept_on(*old(frames), before, *frames);
                        tables_kept_on(*old(frames), before, *frames);
                        self.large_range_stop(
                            *old(frames),
                            before,
                            *frames,
                            vaddr,
                            phys,
                            i as int,
                            rights,
                        );
                    }
                    return Err(error);
                },
            }
        }
        Ok(())
    }

    proof fn large_range_step(
        self,
        start: FrameAllocator,
        before: FrameAllocator,
        after: FrameAllocator,
        vaddr: u64,
        phys: u64,
        i: int,
        rights: Rights,
    )
        requires
            0 <= i,
            self.lives_in(start),
            self.lives_in(before),
            self.large_pages_mapped(start, before, vaddr, phys, i, rights),
            self.translation(before, large_page_at(vaddr, i)) is None,
            translations_kept(
                before,
                after,
                |w: u64| same_page(w, large_page_at(vaddr, i), 1),
            ),
            forall|w: u64|
                same_page(w, large_page_at(vaddr, i), 1) ==> #[trigger] self.translation(after, w)
                    == Some((1nat, large_bits(large_page_at(phys, i), rights))),
        ensures
            self.large_pages_mapped(start, after, vaddr, phys, i + 1, rights),
    {
        let v = large_page_at(vaddr, i);
        assert forall|r: int, w: u64|
            is_root(start, r) && !in_large_range(w, vaddr, i + 1) implies #[trigger] walk(
            after,
            r,
            w,
        ) == walk(start, r, w) by {
            assert(!same_page(w, large_page_at(vaddr, i), 1));
            if in_large_range(w, vaddr, i) {
                let k = choose|k: int| 0 <= k < i && #[trigger] same_page(w, large_page_at(vaddr, k), 1);
                assert(0 <= k < i + 1 && same_page(w, large_page_at(vaddr, k), 1));
            }
            assert(is_root(before, r));
            assert(walk(before, r, w) == walk(start, r, w));
        }
        assert forall|k: int, w: u64|
            0 <= k < i + 1 && #[trigger] same_page(w, large_page_at(vaddr, k), 1) implies
            self.translation(after, w) == Some(
            (1nat, large_bits(large_page_at(phys, k), rights)),
        ) by {
            if k < i {
                if same_page(w, v, 1) {
                    assert(same_page(v, large_page_at(vaddr, k), 1));
                }
                assert(walk(after, self.root.number as int, w) == walk(
                    before,
                    self.root.number as int,
                    w,
                ));
            }
        }
    }

    proof fn large_range_stop(
        self,
        start: FrameAllocator,
        before: FrameAllocator,
        after: FrameAllocator,
        vaddr: u64,
        phys: u64,
        i: int,
        rights: Rights,
    )
        requires
            0 <= i,
            self.lives_in(start),
            self.lives_in(before),
            self.large_pages_mapped(start, before, vaddr, phys, i, rights),
            translations_kept(before, after, |w: u64| false),
        ensures
            self.large_pages_mapped(start, after, vaddr, phys, i, rights),
    {
        assert forall|r: int, w: u64|
            is_root(start, r) && !in_large_range(w, vaddr, i) implies #[trigger] walk(after, r, w)
            == walk(start, r, w) by {
            assert(is_root(before, r));
            assert(walk(before, r, w) == walk(start, r, w));
        }
        assert forall|k: int, w: u64|
            0 <= k < i && #[trigger] same_page(w, large_page_at(vaddr, k), 1) implies
            self.translation(after, w) == Some(
            (1nat, large_bits(large_page_at(phys, k), rights)),
        ) by {
            assert(walk(after, self.root.number as int, w) == walk(
                before,
                self.root.number as int,
                w,
            ));
        }
    }
}

/// Frames returned by a teardown of the lower half.
#[derive(Clone, Copy, Debug, PartialEq, Eq, Structural)]
pub struct Reclaimed {
    /// Frames that held domain data.
    pub data_frames: u64,
    /// Frames that held the domain's page tables.
    pub table_frames: u64,
}

/// Entries that end walks in the first `n` slots of table `t` and below them.
pub open spec fn leaves_in(mem: Seq<Page>, t: int, level: nat, n: int) -> nat
    decreases level, n,
{
    if n <= 0 {
        0
    } else {
        let e = mem[t]@[n - 1];
        leaves_in(mem, t, level, n - 1) + if !present(e) {
            0
        } else if level == 0 || large(e) {
            1
        } else {
            leaves_in(mem, child_of(0, e), (level - 1) as nat, 512)
        }
    }
}

/// Tables below the first `n` slots of table `t`.
pub open spec fn tables_in(mem: Seq<Page>, t: int, level: nat, n: int) -> nat
    decreases level, n,
{
    if n <= 0 {
        0
    } else {
        let e = mem[t]@[n - 1];
        tables_in(mem, t, level, n - 1) + if !present(e) || level == 0 || large(e) {
            0
        } else {
            1 + tables_in(mem, child_of(0, e), (level - 1) as nat, 512)
        }
    }
}

/// Most leaves below one entry of a table at `level`.
pub open spec fn leaf_bound(level: nat) -> int {
    if level == 0 {
        1
    } else if level == 1 {
        512
    } else if level == 2 {
        0x4_0000
    } else {
        0x800_0000
    }
}

proof fn counts_are_bounded(mem: Seq<Page>, t: int, level: nat, n: int)
    requires
        level <= 3,
        0 <= n <= 512,
    ensures
        leaves_in(mem, t, level, n) <= n * leaf_bound(level),
        tables_in(mem, t, level, n) <= n * leaf_bound(level),
        leaves_in(mem, t, level, n) <= 0x10_0000_0000,
        tables_in(mem, t, level, n) <= 0x10_0000_0000,
    decreases level, n,
{
    if n > 0 {
        counts_are_bounded(mem, t, level, n - 1);
        let e = mem[t]@[n - 1];
        if present(e) && level > 0 && !large(e) {
            counts_are_bounded(mem, child_of(0, e), (level - 1) as nat, 512);
            tables_are_fewer(mem, child_of(0, e), (level - 1) as nat, 512);
        }
    }
    if level == 0 {
    } else if level == 1 {
    } else if level == 2 {
    } else {
    }
}

proof fn tables_are_fewer(mem: Seq<Page>, t: int, level: nat, n: int)
    requires
        level <= 2,
        0 <= n <= 512,
    ensures
        level == 0 ==> tables_in(mem, t, level, n) == 0,
        level == 1 ==> tables_in(mem, t, level, n) <= n,
        level == 2 ==> tables_in(mem, t, level, n) <= n * 513,
    decreases level, n,
{
    if n > 0 {
        tables_are_fewer(mem, t, level, n - 1);
        let e = mem[t]@[n - 1];
        if present(e) && level > 0 && !large(e) {
            tables_are_fewer(mem, child_of(0, e), (level - 1) as nat, 512);
        }
    }
}

/// The table labelled `label` lies below, or is, the table at `level` with
/// `prefix`.
pub open spec fn under(label: Label, level: nat, prefix: int) -> bool {
    match label {
        Some((l, q)) => l <= level && q / leaf_bound((level - l) as nat) == prefix,
        None => false,
    }
}

/// No interior entry leads to table `t`.
pub open spec fn is_orphan(frames: FrameAllocator, t: int) -> bool {
    forall|x: int, k: int|
        0 <= x < frames.frames() && 0 <= k < 512 ==> !(#[trigger] points_to(frames, x, k, t))
}

/// The entry `k` of table `x` is an interior one that leads to table `t`.
pub open spec fn points_to(frames: FrameAllocator, x: int, k: int, t: int) -> bool {
    let e = frames.contents()[x]@[k];
    &&& frames.labels_spec()[x] matches Some((l, _)) && l > 0
    &&& present(e)
    &&& !large(e)
    &&& child_of(0, e) == t
}

/// Tables either stay as they are or cease to be tables, and only tables of the
/// space `home` below `prefix` at `level` cease to be.
pub open spec fn torn_down(
    before: FrameAllocator,
    after: FrameAllocator,
    home: int,
    level: nat,
    prefix: int,
) -> bool {
    &&& after.frames() == before.frames()
    &&& after.parents == before.parents
    &&& after.homes == before.homes
    &&& forall|i: int|
        0 <= i < before.frames() && #[trigger] after.labels@[i] is Some ==> {
            &&& before.labels@[i] == after.labels@[i]
            &&& after.memory@[i] == before.memory@[i]
        }
    &&& forall|i: int|
        0 <= i < before.frames() && before.labels@[i] is Some && !(before.homes@[i] == home
            && under(before.labels@[i], level, prefix)) ==> #[trigger] after.labels@[i] is Some
}

/// Frames either keep their use, or were held by `owner` or served as tables
/// and are now in quarantine.
pub open spec fn only_retires(before: FrameAllocator, after: FrameAllocator, owner: Owner) -> bool {
    &&& after.uses@.len() == before.uses@.len()
    &&& forall|i: int|
        0 <= i < before.uses@.len() ==> {
            ||| #[trigger] after.uses@[i] == before.uses@[i]
            ||| {
                &&& after.uses@[i] == FrameUse::Retired(owner)
                &&& before.uses@[i] == FrameUse::Held(owner) || before.uses@[i] is Table
            }
        }
}

/// Table `x` ceased to be one.
pub open spec fn ceased(before: FrameAllocator, after: FrameAllocator, x: int) -> bool {
    before.labels_spec()[x] is Some && after.labels_spec()[x] is None
}

/// The entry `k` of table `x` ends walks.
pub open spec fn is_leaf(frames: FrameAllocator, x: int, k: int) -> bool {
    let e = frames.contents()[x]@[k];
    &&& frames.labels_spec()[x] matches Some((l, _)) && (l == 0 || large(e))
    &&& present(e)
}

/// The frame that a leaf names is in quarantine if `owner` held it.
pub open spec fn leaf_given_back(
    before: FrameAllocator,
    after: FrameAllocator,
    e: u64,
    owner: Owner,
) -> bool {
    let f = target(e) as int / 0x1000;
    f < before.uses_spec().len() && before.uses_spec()[f] == FrameUse::Held(owner)
        ==> after.uses_spec()[f] == FrameUse::Retired(owner)
}

/// Every table that ceased to be one is in quarantine, and so is everything
/// below it: the tables, and the frames that `owner` held.
pub open spec fn all_given_back(before: FrameAllocator, after: FrameAllocator, owner: Owner) -> bool {
    &&& forall|x: int|
        0 <= x < before.frames() && #[trigger] ceased(before, after, x) ==> after.uses_spec()[x]
            == FrameUse::Retired(owner)
    &&& forall|x: int, k: int, y: int|
        0 <= x < before.frames() && 0 <= k < 512 && ceased(before, after, x)
            && #[trigger] points_to(before, x, k, y) ==> ceased(before, after, y)
    &&& forall|x: int, k: int|
        0 <= x < before.frames() && 0 <= k < 512 && ceased(before, after, x) && #[trigger] is_leaf(
            before,
            x,
            k,
        ) ==> leaf_given_back(before, after, before.contents()[x]@[k], owner)
}

/// A teardown of the tables below one entry of table `at` continues one of the
/// entries before it.
proof fn teardown_continues(
    start: FrameAllocator,
    before: FrameAllocator,
    cleared: FrameAllocator,
    after: FrameAllocator,
    at: int,
    owner: Owner,
)
    requires
        start.wf(),
        start.frames() == before.frames() == cleared.frames() == after.frames(),
        all_given_back(start, before, owner),
        all_given_back(cleared, after, owner),
        only_retires(start, before, owner),
        only_retires(cleared, after, owner),
        cleared.uses == before.uses,
        cleared.labels == before.labels,
        0 <= at < start.frames(),
        after.labels@[at] is Some,
        start.uses@.len() == start.frames(),
        forall|i: int|
            0 <= i < start.frames() && i != at && #[trigger] before.labels@[i] is Some ==> {
                &&& start.labels@[i] == before.labels@[i]
                &&& cleared.memory@[i] == start.memory@[i]
            },
        forall|i: int|
            0 <= i < start.frames() && #[trigger] after.labels@[i] is Some ==> cleared.labels@[i] is Some,
    ensures
        all_given_back(start, after, owner),
        only_retires(start, after, owner),
{
    assert forall|x: int|
        0 <= x < start.frames() && #[trigger] ceased(start, after, x) implies after.uses_spec()[x]
        == FrameUse::Retired(owner) by {
        if before.labels@[x] is Some {
            assert(ceased(cleared, after, x));
        } else {
            assert(ceased(start, before, x));
            assert(cleared.uses@[x] == FrameUse::Retired(owner));
        }
    }
    assert forall|x: int, k: int, y: int|
        0 <= x < start.frames() && 0 <= k < 512 && ceased(start, after, x) && #[trigger] points_to(
            start,
            x,
            k,
            y,
        ) implies ceased(start, after, y) by {
        assert(entry_ok(0, start.labels@, start.labels@[x], k, start.memory@[x]@[k]));
        if before.labels@[x] is Some {
            assert(ceased(cleared, after, x));
            assert(points_to(cleared, x, k, y));
            assert(ceased(cleared, after, y));
        } else {
            assert(ceased(start, before, x));
            assert(ceased(start, before, y));
            assert(cleared.labels@[y] is None);
        }
    }
    assert forall|x: int, k: int|
        0 <= x < start.frames() && 0 <= k < 512 && ceased(start, after, x) && #[trigger] is_leaf(
            start,
            x,
            k,
        ) implies leaf_given_back(start, after, start.contents()[x]@[k], owner) by {
        let f = target(start.contents()[x]@[k]) as int / 0x1000;
        if f < start.uses@.len() && start.uses@[f] == FrameUse::Held(owner) {
            assert(before.uses@[f] == FrameUse::Held(owner) || before.uses@[f]
                == FrameUse::Retired(owner));
            assert(cleared.uses@[f] == before.uses@[f]);
            if before.labels@[x] is Some {
                assert(ceased(cleared, after, x));
                assert(is_leaf(cleared, x, k));
                assert(leaf_given_back(cleared, after, cleared.contents()[x]@[k], owner));
            } else {
                assert(ceased(start, before, x));
                assert(leaf_given_back(start, before, start.contents()[x]@[k], owner));
            }
            assert(after.uses@[f] == FrameUse::Retired(owner));
        }
    }
    assert forall|i: int| 0 <= i < start.uses@.len() implies {
        ||| #[trigger] after.uses@[i] == start.uses@[i]
        ||| {
            &&& after.uses@[i] == FrameUse::Retired(owner)
            &&& start.uses@[i] == FrameUse::Held(owner) || start.uses@[i] is Table
        }
    } by {
        assert(cleared.uses@[i] == before.uses@[i]);
    }
}

/// Counts below a table depend on the tables below it only.
proof fn counts_depend_on_tables_below(
    before: FrameAllocator,
    after: FrameAllocator,
    home: int,
    t: int,
    level: nat,
    prefix: int,
    n: int,
)
    requires
        before.wf(),
        level <= 2,
        0 <= n <= 512,
        0 <= prefix,
        0 <= t < before.frames(),
        before.labels@[t] == Some((level, prefix)),
        before.homes@[t] == home,
        is_low(level, prefix),
        after.frames() == before.frames(),
        forall|i: int|
            0 <= i < before.frames() && before.homes@[i] == home && under(
                before.labels@[i],
                level,
                prefix,
            ) ==> #[trigger] after.memory@[i] == before.memory@[i],
    ensures
        leaves_in(after.memory@, t, level, n) == leaves_in(before.memory@, t, level, n),
        tables_in(after.memory@, t, level, n) == tables_in(before.memory@, t, level, n),
    decreases level, n,
{
    if n > 0 {
        counts_depend_on_tables_below(before, after, home, t, level, prefix, n - 1);
        assert(leaf_bound(0) == 1);
        assert(under(before.labels@[t], level, prefix));
        assert(after.memory@[t] == before.memory@[t]);
        let e = before.memory@[t]@[n - 1];
        if present(e) && level > 0 && !large(e) {
            assert(entry_ok(
                0,
                before.labels@,
                before.labels@[t],
                n - 1,
                before.memory@[t]@[n - 1],
            ));
            assert(sole_parent(
                before.labels@,
                before.parents@,
                before.homes@,
                t,
                n - 1,
                before.memory@[t]@[n - 1],
            ));
            let c = child_of(0, e);
            assert forall|i: int|
                0 <= i < before.frames() && before.homes@[i] == home && under(
                    before.labels@[i],
                    (level - 1) as nat,
                    prefix * 512 + (n - 1),
                ) implies #[trigger] after.memory@[i] == before.memory@[i] by {
                under_is_transitive(before.labels@[i], (level - 1) as nat, prefix, n - 1);
            }
            counts_depend_on_tables_below(
                before,
                after,
                home,
                c,
                (level - 1) as nat,
                prefix * 512 + (n - 1),
                512,
            );
        }
    }
}

proof fn under_is_transitive(label: Label, level: nat, prefix: int, s: int)
    requires
        level <= 1,
        0 <= s < 512,
        0 <= prefix,
        label matches Some((l, q)) && q >= 0,
        under(label, level, prefix * 512 + s),
    ensures
        under(label, level + 1, prefix),
{
    let (l, q) = label->0;
    if l == level {
    } else {
        assert(l == 0 && level == 1);
    }
}

/// Clearing an entry keeps the tables consistent.
proof fn entry_cleared(before: FrameAllocator, after: FrameAllocator, at: int, s: int)
    requires
        before.wf(),
        after.memory@.len() == before.memory@.len(),
        after.uses@ == before.uses@,
        after.labels@ == before.labels@,
        after.parents@ == before.parents@,
        after.homes@ == before.homes@,
        0 <= at < before.memory@.len(),
        0 <= s < 512,
        forall|i: int|
            0 <= i < before.memory@.len() && i != at ==> #[trigger] after.memory@[i]
                == before.memory@[i],
        after.memory@[at]@ == before.memory@[at]@.update(s, 0),
    ensures
        after.wf(),
{
    zero_entry_bits();
    assert forall|t: int, k: int|
        0 <= t < after.memory@.len() && 0 <= k < 512 implies entry_ok(
        0,
        after.labels@,
        after.labels@[t],
        k,
        #[trigger] after.memory@[t]@[k],
    ) && sole_parent(
        after.labels@,
        after.parents@,
        after.homes@,
        t,
        k,
        after.memory@[t]@[k],
    ) by {
        assert(entry_ok(0, before.labels@, before.labels@[t], k, before.memory@[t]@[k]));
        assert(sole_parent(
            before.labels@,
            before.parents@,
            before.homes@,
            t,
            k,
            before.memory@[t]@[k],
        ));
    }
}

/// An empty table that nothing leads to can cease to be a table.
proof fn orphan_released(before: FrameAllocator, after: FrameAllocator, t: int)
    requires
        before.wf(),
        0 <= t < before.frames(),
        before.labels@[t] is Some,
        is_orphan(before, t),
        after.memory@ == before.memory@,
        after.parents@ == before.parents@,
        after.homes@ == before.homes@,
        after.labels@ == before.labels@.update(t, None),
        after.uses@.len() == before.uses@.len(),
        !(after.uses@[t] is Table),
        forall|i: int|
            0 <= i < before.uses@.len() && i != t ==> #[trigger] after.uses@[i] == before.uses@[i],
    ensures
        after.wf(),
{
    assert forall|x: int, k: int|
        0 <= x < after.memory@.len() && 0 <= k < 512 implies entry_ok(
        0,
        after.labels@,
        after.labels@[x],
        k,
        #[trigger] after.memory@[x]@[k],
    ) && sole_parent(
        after.labels@,
        after.parents@,
        after.homes@,
        x,
        k,
        after.memory@[x]@[k],
    ) by {
        assert(entry_ok(0, before.labels@, before.labels@[x], k, before.memory@[x]@[k]));
        assert(sole_parent(
            before.labels@,
            before.parents@,
            before.homes@,
            x,
            k,
            before.memory@[x]@[k],
        ));
        assert(!points_to(before, x, k, t));
    }
}

/// Once the only entry that leads to a table of the lower half is cleared,
/// nothing leads to it.
proof fn cleared_child_is_orphan(
    before: FrameAllocator,
    after: FrameAllocator,
    at: int,
    s: int,
    c: int,
)
    requires
        before.wf(),
        after.wf(),
        after.frames() == before.frames(),
        after.labels@ == before.labels@,
        0 <= at < before.frames(),
        0 <= s < 512,
        points_to(before, at, s, c),
        before.labels@[at] matches Some((l, p)) && is_low((l - 1) as nat, p * 512 + s),
        forall|i: int|
            0 <= i < before.frames() && i != at ==> #[trigger] after.memory@[i]
                == before.memory@[i],
        after.memory@[at]@ == before.memory@[at]@.update(s, 0),
    ensures
        is_orphan(after, c),
{
    zero_entry_bits();
    assert(entry_ok(0, before.labels@, before.labels@[at], s, before.memory@[at]@[s]));
    assert(sole_parent(
        before.labels@,
        before.parents@,
        before.homes@,
        at,
        s,
        before.memory@[at]@[s],
    ));
    assert forall|x: int, k: int| 0 <= x < after.frames() && 0 <= k < 512 implies !(
    #[trigger] points_to(after, x, k, c)) by {
        if points_to(after, x, k, c) {
            assert(!(x == at && k == s));
            assert(points_to(before, x, k, c));
            assert(entry_ok(0, before.labels@, before.labels@[x], k, before.memory@[x]@[k]));
            assert(sole_parent(
                before.labels@,
                before.parents@,
                before.homes@,
                x,
                k,
                before.memory@[x]@[k],
            ));
        }
    }
}

/// Giving back a table after everything below it completes the teardown.
proof fn table_given_back(
    start: FrameAllocator,
    before: FrameAllocator,
    after: FrameAllocator,
    at: int,
    owner: Owner,
)
    requires
        start.wf(),
        start.frames() == before.frames() == after.frames(),
        all_given_back(start, before, owner),
        only_retires(start, before, owner),
        0 <= at < start.frames(),
        start.labels@[at] is Some,
        before.labels@[at] is Some,
        after.labels@ == before.labels@.update(at, None),
        after.uses@ == before.uses@.update(at, FrameUse::Retired(owner)),
        before.uses@.len() == before.labels@.len() == start.frames(),
        forall|k: int, y: int|
            0 <= k < 512 && #[trigger] points_to(start, at, k, y) ==> ceased(start, before, y),
        forall|k: int|
            0 <= k < 512 && #[trigger] is_leaf(start, at, k) ==> leaf_given_back(
                start,
                before,
                start.contents()[at]@[k],
                owner,
            ),
    ensures
        all_given_back(start, after, owner),
{
    assert forall|x: int|
        0 <= x < start.frames() && #[trigger] ceased(start, after, x) implies after.uses_spec()[x]
        == FrameUse::Retired(owner) by {
        if x != at {
            assert(ceased(start, before, x));
        }
    }
    assert forall|x: int, k: int, y: int|
        0 <= x < start.frames() && 0 <= k < 512 && ceased(start, after, x) && #[trigger] points_to(
            start,
            x,
            k,
            y,
        ) implies ceased(start, after, y) by {
        assert(entry_ok(0, start.labels@, start.labels@[x], k, start.memory@[x]@[k]));
        if x != at {
            assert(ceased(start, before, x));
        }
        assert(ceased(start, before, y));
    }
    assert forall|x: int, k: int|
        0 <= x < start.frames() && 0 <= k < 512 && ceased(start, after, x) && #[trigger] is_leaf(
            start,
            x,
            k,
        ) implies leaf_given_back(start, after, start.contents()[x]@[k], owner) by {
        if x != at {
            assert(ceased(start, before, x));
        }
        assert(leaf_given_back(start, before, start.contents()[x]@[k], owner));
    }
}

/// Gives back the table in frame `t`, to which nothing leads, and everything
/// below it.
fn destroy_level(
    t: Frame,
    level: u32,
    frames: &mut FrameAllocator,
    owner: Owner,
    counts: &mut Reclaimed,
)
    requires
        old(frames).wf(),
        level <= 2,
        t.number < old(frames).frames(),
        old(frames).labels@[t.number as int] matches Some((l, p)) && l == level && is_low(l, p),
        is_orphan(*old(frames), t.number as int),
        old(counts).data_frames + 512 * leaf_bound(level as nat) <= 0x1000_0000_0000_0000,
        old(counts).table_frames + 512 * leaf_bound(level as nat) <= 0x1000_0000_0000_0000,
    ensures
        final(frames).wf(),
        ({
            let (l, p) = old(frames).labels@[t.number as int]->0;
            torn_down(*old(frames), *final(frames), old(frames).homes@[t.number as int], l, p)
        }),
        only_retires(*old(frames), *final(frames), owner),
        all_given_back(*old(frames), *final(frames), owner),
        final(frames).labels@[t.number as int] is None,
        final(counts).data_frames == old(counts).data_frames + leaves_in(
            old(frames).memory@,
            t.number as int,
            level as nat,
            512,
        ),
        final(counts).table_frames == old(counts).table_frames + 1 + tables_in(
            old(frames).memory@,
            t.number as int,
            level as nat,
            512,
        ),
    decreases level,
{
    let ghost start = *frames;
    let ghost at = t.number as int;
    let ghost l = level as nat;
    let ghost p = (start.labels@[at]->0).1;
    let ghost home = start.homes@[at];
    for n in 0..512usize
        invariant
            start == *old(frames),
            start.wf(),
            frames.wf(),
            at == t.number,
            l == level,
            level <= 2,
            0 <= at < start.frames(),
            0 <= p,
            start.labels@[at] == Some((l, p)),
            is_low(l, p),
            home == start.homes@[at],
            frames.frames() == start.frames(),
            frames.labels@[at] == Some((l, p)),
            frames.parents == start.parents,
            frames.homes == start.homes,
            is_orphan(*frames, at),
            only_retires(start, *frames, owner),
            all_given_back(start, *frames, owner),
            forall|k: int, y: int|
                0 <= k < n && #[trigger] points_to(start, at, k, y) ==> ceased(start, *frames, y),
            forall|k: int|
                0 <= k < n && #[trigger] is_leaf(start, at, k) ==> leaf_given_back(
                    start,
                    *frames,
                    start.contents()[at]@[k],
                    owner,
                ),
            forall|k: int| 0 <= k < n ==> !present(#[trigger] frames.memory@[at]@[k]),
            forall|k: int|
                n <= k < 512 ==> #[trigger] frames.memory@[at]@[k] == start.memory@[at]@[k],
            forall|i: int|
                0 <= i < start.frames() && i != at && #[trigger] frames.labels@[i] is Some ==> {
                    &&& start.labels@[i] == frames.labels@[i]
                    &&& frames.memory@[i] == start.memory@[i]
                },
            forall|i: int|
                0 <= i < start.frames() && start.labels@[i] is Some && !(start.homes@[i] == home
                    && under(start.labels@[i], l, p)) ==> #[trigger] frames.labels@[i] is Some,
            forall|i: int, k: int|
                0 <= i < start.frames() && n <= k < 512 && level > 0 && #[trigger] under(
                    start.labels@[i],
                    (l - 1) as nat,
                    p * 512 + k,
                ) ==> frames.labels@[i] is Some,
            old(counts).data_frames + 512 * leaf_bound(l) <= 0x1000_0000_0000_0000,
            old(counts).table_frames + 512 * leaf_bound(level as nat) <= 0x1000_0000_0000_0000,
            counts.data_frames == old(counts).data_frames + leaves_in(
                start.memory@,
                at,
                l,
                n as int,
            ),
            counts.table_frames == old(counts).table_frames + tables_in(
                start.memory@,
                at,
                l,
                n as int,
            ),
    {
        let ghost before = *frames;
        let entry: u64 = frames.memory[t.number as usize][n];
        proof {
            counts_are_bounded(start.memory@, at, l, n as int);
            counts_are_bounded(start.memory@, at, l, n + 1);
            if level == 0 {
            } else if level == 1 {
            } else {
            }
            assert((n + 1) * leaf_bound(l) <= 512 * leaf_bound(l)) by (nonlinear_arith)
                requires
                    n < 512,
                    leaf_bound(l) > 0,
            ;
            assert((n + 1) * leaf_bound(l) == n * leaf_bound(l) + leaf_bound(l)) by (nonlinear_arith);
            zero_entry_bits();
            assert(before.memory@[at]@[n as int] == start.memory@[at]@[n as int]);
        }
        if entry & PRESENT != 0 {
            frames.memory[t.number as usize][n] = 0;
            proof {
                entry_cleared(before, *frames, at, n as int);
                assert forall|x: int, k: int| 0 <= x < frames.frames() && 0 <= k < 512 implies !(
                #[trigger] points_to(*frames, x, k, at)) by {
                    assert(!points_to(before, x, k, at));
                }
            }
            let below = Frame::containing(entry & ADDRESS_MASK);
            if level == 0 || entry & HUGE != 0 {
                let ghost cleared = *frames;
                frames.retire(below, owner);
                counts.data_frames = counts.data_frames + 1;
                proof {
                    teardown_continues(start, before, cleared, *frames, at, owner);
                    assert forall|x: int, k: int|
                        0 <= x < frames.frames() && 0 <= k < 512 implies !(#[trigger] points_to(
                        *frames,
                        x,
                        k,
                        at,
                    )) by {
                        assert(!points_to(cleared, x, k, at));
                    }
                }
            } else {
                let ghost c = below.number as int;
                let ghost cleared = *frames;
                proof {
                    assert(entry_ok(
                        0,
                        before.labels@,
                        before.labels@[at],
                        n as int,
                        before.memory@[at]@[n as int],
                    ));
                    assert(sole_parent(
                        before.labels@,
                        before.parents@,
                        before.homes@,
                        at,
                        n as int,
                        before.memory@[at]@[n as int],
                    ));
                    assert(points_to(before, at, n as int, c));
                    cleared_child_is_orphan(before, cleared, at, n as int, c);
                    assert(leaf_bound(0) == 1);
                    assert forall|i: int|
                        0 <= i < start.frames() && start.homes@[i] == home && under(
                            start.labels@[i],
                            (l - 1) as nat,
                            p * 512 + n,
                        ) implies #[trigger] cleared.memory@[i] == start.memory@[i] by {
                        assert(before.labels@[i] is Some);
                    }
                    assert(start.labels@[c] == before.labels@[c]);
                    counts_depend_on_tables_below(
                        start,
                        cleared,
                        home,
                        c,
                        (l - 1) as nat,
                        p * 512 + n,
                        512,
                    );
                }
                destroy_level(below, level - 1, frames, owner, counts);
                proof {
                    assert(!under(cleared.labels@[at], (l - 1) as nat, p * 512 + n));
                    assert(frames.labels@[at] is Some);
                    teardown_continues(start, before, cleared, *frames, at, owner);
                    assert forall|k: int, y: int|
                        0 <= k < n + 1 && #[trigger] points_to(start, at, k, y) implies ceased(
                        start,
                        *frames,
                        y,
                    ) by {
                        assert(entry_ok(0, start.labels@, start.labels@[at], k, start.memory@[at]@[k]));
                        if k < n {
                            assert(ceased(start, before, y));
                            assert(cleared.labels@[y] is None);
                        }
                    }
                    assert forall|x: int, k: int|
                        0 <= x < frames.frames() && 0 <= k < 512 implies !(#[trigger] points_to(
                        *frames,
                        x,
                        k,
                        at,
                    )) by {
                        assert(!points_to(cleared, x, k, at));
                        assert(frames.labels@[x] is Some ==> frames.memory@[x]
                            == cleared.memory@[x]);
                    }
                    assert(!under(cleared.labels@[at], (l - 1) as nat, p * 512 + n));
                    assert(frames.labels@[at] is Some);
                    assert forall|i: int|
                        0 <= i < start.frames() && start.labels@[i] is Some && !(start.homes@[i]
                            == home && under(start.labels@[i], l, p)) implies #[trigger] frames.labels@[i] is Some by {
                        assert(before.labels@[i] is Some);
                        if under(cleared.labels@[i], (l - 1) as nat, p * 512 + n) {
                            under_is_transitive(cleared.labels@[i], (l - 1) as nat, p, n as int);
                        }
                    }
                    assert forall|i: int, k: int|
                        0 <= i < start.frames() && n + 1 <= k < 512 && level > 0
                            && #[trigger] under(
                            start.labels@[i],
                            (l - 1) as nat,
                            p * 512 + k,
                        ) implies frames.labels@[i] is Some by {
                        assert(before.labels@[i] is Some);
                        assert(cleared.labels@[i] == start.labels@[i]);
                        assert(!under(cleared.labels@[i], (l - 1) as nat, p * 512 + n));
                    }
                }
            }
        }
    }
    let ghost before = *frames;
    frames.uses.set(t.number as usize, FrameUse::Retired(owner));
    proof {
        frames.labels@ = frames.labels@.update(at, None);
        orphan_released(before, *frames, at);
        assert(leaf_bound(0) == 1);
        assert(under(start.labels@[at], l, p));
        counts_are_bounded(start.memory@, at, l, 512);
        table_given_back(start, before, *frames, at, owner);
    }
    counts.table_frames = counts.table_frames + 1;
}

/// A walk that meets no table that was torn down ends as before.
proof fn walk_survives(
    before: FrameAllocator,
    after: FrameAllocator,
    home: int,
    t: int,
    level: nat,
    v: u64,
)
    requires
        before.wf(),
        level <= 2,
        0 <= t < before.frames(),
        before.labels@[t] == Some((level, prefix_of(v, level))),
        is_low(level, prefix_of(v, level)) ==> before.homes@[t] != home,
        after.frames() == before.frames(),
        forall|i: int|
            0 <= i < before.frames() && before.labels@[i] is Some && (before.labels@[i]->0).0 < 3
                && !(before.homes@[i] == home && is_low(
                (before.labels@[i]->0).0,
                (before.labels@[i]->0).1,
            )) ==> #[trigger] after.memory@[i] == before.memory@[i],
    ensures
        lookup(0, after.memory@, t, level, v) == lookup(0, before.memory@, t, level, v),
    decreases level,
{
    let s = slot_of(v, level);
    assert(0 <= s < 512);
    assert(after.memory@[t] == before.memory@[t]);
    let e = before.memory@[t]@[s];
    if present(e) && level > 0 && !large(e) {
        assert(entry_ok(0, before.labels@, before.labels@[t], s, before.memory@[t]@[s]));
        assert(sole_parent(
            before.labels@,
            before.parents@,
            before.homes@,
            t,
            s,
            before.memory@[t]@[s],
        ));
        prefix_continues(v, level);
        walk_survives(before, after, home, child_of(0, e), (level - 1) as nat, v);
    }
}

/// Tables below a low one are low.
proof fn under_low_is_low(label: Label, level: nat, prefix: int)
    requires
        level <= 2,
        is_low(level, prefix),
        label matches Some((l, q)) && q >= 0,
        under(label, level, prefix),
    ensures
        label matches Some((l, q)) && l <= 2 && is_low(l, q),
{
    let (l, q) = label->0;
    if level == 0 {
    } else if level == 1 {
        if l == 0 {
        }
    } else {
        if l == 0 {
        } else if l == 1 {
        }
    }
}

/// What lies above a low table is low.
proof fn low_below(level: nat, prefix: int, k: int)
    requires
        1 <= level <= 2,
        0 <= prefix,
        0 <= k < 512,
        is_low((level - 1) as nat, prefix * 512 + k),
    ensures
        is_low(level, prefix),
{
}

/// Below a table of the highest level that leads to a low table the slot is low.
proof fn top_prefix(frames: FrameAllocator, p: int, k: int, x: int)
    requires
        frames.wf(),
        0 <= p < frames.frames(),
        0 <= k < 512,
        frames.labels@[p] matches Some((l, _)) && l == 3,
        points_to(frames, p, k, x),
        is_low_table(frames, x),
    ensures
        frames.labels@[p] == Some((3nat, 0int)),
        k < SLOT_HHDM,
{
    assert(entry_ok(0, frames.labels@, frames.labels@[p], k, frames.memory@[p]@[k]));
}

/// The frame a walk through tables that were torn down ended at is in
/// quarantine, if `owner` held it.
proof fn walked_leaf_is_given_back(
    start: FrameAllocator,
    after: FrameAllocator,
    t: int,
    level: nat,
    v: u64,
    owner: Owner,
)
    requires
        start.wf(),
        level <= 2,
        0 <= t < start.frames(),
        start.labels@[t] == Some((level, prefix_of(v, level))),
        ceased(start, after, t),
        all_given_back(start, after, owner),
    ensures
        lookup(0, start.contents(), t, level, v) matches Some((_, e)) ==> leaf_given_back(
            start,
            after,
            e,
            owner,
        ),
    decreases level,
{
    let s = slot_of(v, level);
    let e = start.memory@[t]@[s];
    assert(0 <= s < 512);
    if present(e) {
        if level == 0 || large(e) {
            assert(is_leaf(start, t, s));
        } else {
            assert(entry_ok(0, start.labels@, start.labels@[t], s, start.memory@[t]@[s]));
            assert(points_to(start, t, s, child_of(0, e)));
            prefix_continues(v, level);
            walked_leaf_is_given_back(start, after, child_of(0, e), (level - 1) as nat, v, owner);
        }
    }
}

/// A lower half whose topmost entries are absent holds nothing to give back.
pub proof fn teardown_is_complete(frames: FrameAllocator, space: AddressSpace, n: int)
    requires
        0 <= n <= SLOT_HHDM,
        forall|k: int|
            0 <= k < SLOT_HHDM ==> !present(
                #[trigger] frames.contents()[space.root.number as int]@[k],
            ),
    ensures
        leaves_in(frames.contents(), space.root.number as int, 3, n) == 0,
        tables_in(frames.contents(), space.root.number as int, 3, n) == 0,
    decreases n,
{
    if n > 0 {
        teardown_is_complete(frames, space, n - 1);
        assert(!present(frames.contents()[space.root.number as int]@[n - 1]));
    }
}

/// The topmost table `r` lost entries below slot `n`, and tables of its lower
/// half ceased to be tables; nothing else changed.
pub open spec fn half_torn_down(
    before: FrameAllocator,
    after: FrameAllocator,
    r: int,
    n: int,
) -> bool {
    &&& after.frames() == before.frames()
    &&& after.parents == before.parents
    &&& after.homes == before.homes
    &&& after.labels@[r] == before.labels@[r]
    &&& forall|k: int| 0 <= k < n ==> !present(#[trigger] after.memory@[r]@[k])
    &&& forall|k: int| n <= k < 512 ==> #[trigger] after.memory@[r]@[k] == before.memory@[r]@[k]
    &&& forall|i: int|
        0 <= i < before.frames() && i != r && #[trigger] after.labels@[i] is Some ==> {
            &&& before.labels@[i] == after.labels@[i]
            &&& after.memory@[i] == before.memory@[i]
        }
    &&& forall|i: int|
        0 <= i < before.frames() && before.labels@[i] is Some && !(before.homes@[i] == r
            && (before.labels@[i]->0).0 < 3 && is_low(
            (before.labels@[i]->0).0,
            (before.labels@[i]->0).1,
        )) ==> #[trigger] after.labels@[i] is Some
    &&& forall|i: int, k: int|
        0 <= i < before.frames() && n <= k < 512 && #[trigger] under(before.labels@[i], 2, k)
            ==> after.labels@[i] is Some
}

impl AddressSpace {
    /// Gives back every frame of the lower half: the data frames that `owner`
    /// holds and the tables that lead to them.
    ///
    /// The two are counted separately because a domain is charged for both.
    pub fn destroy_user_half(&self, frames: &mut FrameAllocator, owner: Owner) -> (counts:
        Reclaimed)
        requires
            old(frames).wf(),
            self.lives_in(*old(frames)),
        ensures
            final(frames).wf(),
            self.lives_in(*final(frames)),
            forall|r: int| is_root(*old(frames), r) ==> #[trigger] is_root(*final(frames), r),
            forall|r: int| is_root(*final(frames), r) ==> #[trigger] is_root(*old(frames), r),
            forall|r: int, v: u64|
                is_root(*old(frames), r) ==> #[trigger] walk(*final(frames), r, v) == if r
                    == self.root.number && slot_of(v, 3) < SLOT_HHDM {
                    None
                } else {
                    walk(*old(frames), r, v)
                },
            only_retires(*old(frames), *final(frames), owner),
            all_given_back(*old(frames), *final(frames), owner),
            forall|v: u64|
                slot_of(v, 3) < SLOT_HHDM ==> (#[trigger] self.translation(
                    *old(frames),
                    v,
                ) matches Some((_, e)) ==> leaf_given_back(
                    *old(frames),
                    *final(frames),
                    e,
                    owner,
                )),
            rooted(*old(frames)) ==> rooted(*final(frames)) && forall|x: int|
                0 <= x < old(frames).frames() && old(frames).homes@[x] == self.root.number
                    && #[trigger] is_low_table(*old(frames), x) ==> ceased(
                    *old(frames),
                    *final(frames),
                    x,
                ),
            final(frames).frames() == old(frames).frames(),
            final(frames).homes == old(frames).homes,
            forall|x: int|
                0 <= x < old(frames).frames() && #[trigger] final(frames).labels_spec()[x] is Some
                    ==> old(frames).labels_spec()[x] == final(frames).labels_spec()[x],
            forall|k: int|
                0 <= k < SLOT_HHDM ==> !present(
                    #[trigger] final(frames).contents()[self.root.number as int]@[k],
                ),
            forall|k: int|
                SLOT_HHDM <= k < 512 ==> #[trigger] final(
                    frames).contents()[self.root.number as int]@[k] == old(
                    frames).contents()[self.root.number as int]@[k],
            forall|r: int|
                is_root(*old(frames), r) && r != self.root.number ==> #[trigger] final(
                    frames).contents()[r] == old(frames).contents()[r],
            counts.data_frames == leaves_in(
                old(frames).contents(),
                self.root.number as int,
                3,
                SLOT_HHDM as int,
            ),
            counts.table_frames == tables_in(
                old(frames).contents(),
                self.root.number as int,
                3,
                SLOT_HHDM as int,
            ),
    {
        let ghost start = *frames;
        let ghost r = self.root.number as int;
        let at: usize = self.root.number as usize;
        let mut counts = Reclaimed { data_frames: 0, table_frames: 0 };
        for n in 0..SLOT_HHDM
            invariant
                start == *old(frames),
                start.wf(),
                frames.wf(),
                r == self.root.number,
                at == r,
                is_root(start, r),
                half_torn_down(start, *frames, r, n as int),
                only_retires(start, *frames, owner),
                all_given_back(start, *frames, owner),
                forall|k: int, y: int|
                    0 <= k < n && #[trigger] points_to(start, r, k, y) ==> ceased(start, *frames, y),
                counts.data_frames == leaves_in(start.memory@, r, 3, n as int),
                counts.table_frames == tables_in(start.memory@, r, 3, n as int),
        {
            let ghost before = *frames;
            let entry: u64 = frames.memory[at][n];
            proof {
                counts_are_bounded(start.memory@, r, 3, n as int);
                zero_entry_bits();
                assert(before.memory@[r]@[n as int] == start.memory@[r]@[n as int]);
                assert(entry_ok(
                    0,
                    before.labels@,
                    before.labels@[r],
                    n as int,
                    before.memory@[r]@[n as int],
                ));
                assert(sole_parent(
                    before.labels@,
                    before.parents@,
                    before.homes@,
                    r,
                    n as int,
                    before.memory@[r]@[n as int],
                ));
            }
            if entry & PRESENT != 0 {
                frames.memory[at][n] = 0;
                let ghost cleared = *frames;
                let below = Frame::containing(entry & ADDRESS_MASK);
                let ghost c = below.number as int;
                proof {
                    entry_cleared(before, cleared, r, n as int);
                    assert(points_to(before, r, n as int, c));
                    cleared_child_is_orphan(before, cleared, r, n as int, c);
                    assert forall|i: int|
                        0 <= i < start.frames() && start.homes@[i] == r && under(
                            start.labels@[i],
                            2,
                            n as int,
                        ) implies #[trigger] cleared.memory@[i] == start.memory@[i] by {
                        assert(before.labels@[i] is Some);
                    }
                    assert(start.homes@[c] == r);
                    counts_depend_on_tables_below(start, cleared, r, c, 2, n as int, 512);
                }
                destroy_level(below, 2, frames, owner, &mut counts);
                proof {
                    assert(!under(cleared.labels@[r], 2, n as int));
                    assert(frames.labels@[r] is Some);
                    teardown_continues(start, before, cleared, *frames, r, owner);
                    assert forall|k: int, y: int|
                        0 <= k < n + 1 && #[trigger] points_to(start, r, k, y) implies ceased(
                        start,
                        *frames,
                        y,
                    ) by {
                        assert(entry_ok(0, start.labels@, start.labels@[r], k, start.memory@[r]@[k]));
                        if k < n {
                            assert(ceased(start, before, y));
                            assert(cleared.labels@[y] is None);
                        }
                    }
                    assert forall|i: int|
                        0 <= i < start.frames() && start.labels@[i] is Some && !(start.homes@[i]
                            == r && (start.labels@[i]->0).0 < 3 && is_low(
                            (start.labels@[i]->0).0,
                            (start.labels@[i]->0).1,
                        )) implies #[trigger] frames.labels@[i] is Some by {
                        assert(before.labels@[i] is Some);
                        if under(cleared.labels@[i], 2, n as int) {
                            under_low_is_low(cleared.labels@[i], 2, n as int);
                        }
                    }
                    assert forall|i: int, k: int|
                        0 <= i < start.frames() && n + 1 <= k < 512 && #[trigger] under(
                            start.labels@[i],
                            2,
                            k,
                        ) implies frames.labels@[i] is Some by {
                        assert(before.labels@[i] is Some);
                        assert(cleared.labels@[i] == start.labels@[i]);
                        assert(!under(cleared.labels@[i], 2, n as int));
                    }
                }
            }
        }
        proof {
            assert forall|q: int| is_root(start, q) implies #[trigger] is_root(*frames, q) by {
                assert(frames.labels@[q] is Some);
            }
            assert forall|q: int, v: u64| is_root(start, q) implies #[trigger] walk(*frames, q, v)
                == if q == r && slot_of(v, 3) < SLOT_HHDM {
                None
            } else {
                walk(start, q, v)
            } by {
                self.half_walk(start, *frames, q, v);
            }
            assert forall|q: int| is_root(start, q) && q != r implies #[trigger] frames.contents()[q]
                == start.contents()[q] by {
                assert(frames.labels@[q] is Some);
            }
            assert forall|v: u64| slot_of(v, 3) < SLOT_HHDM implies (#[trigger] self.translation(
                start,
                v,
            ) matches Some((_, e)) ==> leaf_given_back(start, *frames, e, owner)) by {
                root_prefix(v);
                let s = slot_of(v, 3);
                let e = start.memory@[r]@[s];
                assert(entry_ok(0, start.labels@, start.labels@[r], s, start.memory@[r]@[s]));
                if present(e) {
                    assert(points_to(start, r, s, child_of(0, e)));
                    prefix_continues(v, 3);
                    walked_leaf_is_given_back(start, *frames, child_of(0, e), 2, v, owner);
                }
            }
            if rooted(start) {
                self.nothing_is_left(start, *frames, owner);
            }
        }
        counts
    }

    /// In rooted tables, a teardown that took the whole lower half left none of
    /// its tables.
    proof fn nothing_is_left(self, start: FrameAllocator, after: FrameAllocator, owner: Owner)
        requires
            start.wf(),
            after.wf(),
            self.lives_in(start),
            rooted(start),
            half_torn_down(start, after, self.root.number as int, SLOT_HHDM as int),
            all_given_back(start, after, owner),
            forall|k: int, y: int|
                0 <= k < SLOT_HHDM && #[trigger] points_to(start, self.root.number as int, k, y)
                    ==> ceased(start, after, y),
        ensures
            rooted(after),
            forall|x: int|
                0 <= x < start.frames() && start.homes@[x] == self.root.number
                    && #[trigger] is_low_table(start, x) ==> ceased(start, after, x),
    {
        let r = self.root.number as int;
        assert forall|x: int|
            0 <= x < start.frames() && start.homes@[x] == r && #[trigger] is_low_table(
                start,
                x,
            ) implies ceased(start, after, x) by {
            self.low_table_ceases(start, after, owner, x, (3 - (start.labels@[x]->0).0) as nat);
        }
        assert forall|t: int| 0 <= t < after.frames() && #[trigger] is_low_table(after, t) implies {
            let (x, k) = after.parents@[t];
            0 <= x < after.frames() && 0 <= k < 512 && points_to(after, x, k, t)
        } by {
            let (x, k) = after.parents@[t];
            assert(t != r);
            assert(is_low_table(start, t));
            assert(points_to(start, x, k, t));
            assert(entry_ok(0, start.labels@, start.labels@[x], k, start.memory@[x]@[k]));
            assert(!ceased(start, after, t));
            assert(!ceased(start, after, x));
            assert(after.labels@[x] is Some);
            if x == r {
                assert(k >= SLOT_HHDM);
            }
            assert(after.memory@[x]@[k] == start.memory@[x]@[k]);
        }
    }

    proof fn low_table_ceases(
        self,
        start: FrameAllocator,
        after: FrameAllocator,
        owner: Owner,
        x: int,
        height: nat,
    )
        requires
            start.wf(),
            self.lives_in(start),
            rooted(start),
            all_given_back(start, after, owner),
            forall|k: int, y: int|
                0 <= k < SLOT_HHDM && #[trigger] points_to(start, self.root.number as int, k, y)
                    ==> ceased(start, after, y),
            0 <= x < start.frames(),
            start.homes@[x] == self.root.number,
            is_low_table(start, x),
            height == 3 - (start.labels@[x]->0).0,
        ensures
            ceased(start, after, x),
        decreases height,
    {
        let (p, k) = start.parents@[x];
        assert(points_to(start, p, k, x));
        assert(entry_ok(0, start.labels@, start.labels@[p], k, start.memory@[p]@[k]));
        assert(sole_parent(
            start.labels@,
            start.parents@,
            start.homes@,
            p,
            k,
            start.memory@[p]@[k],
        ));
        let (level, prefix) = start.labels@[p]->0;
        assert(0 <= prefix);
        if level == 3 {
            top_prefix(start, p, k, x);
            assert(start.labels@[p] == Some((3nat, 0int)));
            assert(start.homes@[p] == p);
        } else {
            assert(is_low(level, prefix)) by {
                low_below(level, prefix, k);
            }
            self.low_table_ceases(start, after, owner, p, (height - 1) as nat);
        }
    }

    proof fn half_walk(self, start: FrameAllocator, after: FrameAllocator, q: int, v: u64)
        requires
            start.wf(),
            self.lives_in(start),
            is_root(start, q),
            half_torn_down(start, after, self.root.number as int, SLOT_HHDM as int),
        ensures
            walk(after, q, v) == if q == self.root.number && slot_of(v, 3) < SLOT_HHDM {
                None
            } else {
                walk(start, q, v)
            },
    {
        let r = self.root.number as int;
        let s = slot_of(v, 3);
        assert(0 <= s < 512);
        root_prefix(v);
        assert(after.labels@[q] is Some);
        if !(q == r && s < SLOT_HHDM) {
            let e = start.memory@[q]@[s];
            assert(after.memory@[q]@[s] == e);
            if present(e) {
                assert(entry_ok(0, start.labels@, start.labels@[q], s, start.memory@[q]@[s]));
                assert(sole_parent(
                    start.labels@,
                    start.parents@,
                    start.homes@,
                    q,
                    s,
                    start.memory@[q]@[s],
                ));
                prefix_continues(v, 3);
                assert(start.homes@[q] == q);
                assert forall|i: int|
                    0 <= i < start.frames() && start.labels@[i] is Some && (
                    start.labels@[i]->0).0 < 3 && !(start.homes@[i] == r && is_low(
                        (start.labels@[i]->0).0,
                        (start.labels@[i]->0).1,
                    )) implies #[trigger] after.memory@[i] == start.memory@[i] by {
                    assert(after.labels@[i] is Some);
                }
                walk_survives(start, after, r, child_of(0, e), 2, v);
            }
        }
    }

    /// Gives back the topmost table itself. The kernel's slots are shared and
    /// are cleared, not freed. The space must not be active and its lower half
    /// must have been destroyed.
    pub fn release_root(self, frames: &mut FrameAllocator, owner: Owner)
        requires
            old(frames).wf(),
            self.lives_in(*old(frames)),
            forall|v: u64|
                !is_kernel_slot(slot_of(v, 3)) ==> #[trigger] self.translation(
                    *old(frames),
                    v,
                ) is None,
            forall|k: int|
                0 <= k < SLOT_HHDM ==> !present(
                    #[trigger] old(frames).contents()[self.root.number as int]@[k],
                ),
        ensures
            final(frames).wf(),
            final(frames).uses_spec() == old(frames).uses_spec().update(
                self.root.number as int,
                FrameUse::Retired(owner),
            ),
            !self.lives_in(*final(frames)),
            forall|r: int| is_root(*final(frames), r) ==> #[trigger] is_root(*old(frames), r),
            final(frames).frames() == old(frames).frames(),
            final(frames).homes == old(frames).homes,
            final(frames).labels_spec() == old(frames).labels_spec().update(
                self.root.number as int,
                None,
            ),
            forall|i: int|
                0 <= i < old(frames).frames() && i != self.root.number ==> #[trigger] final(
                    frames).contents()[i] == old(frames).contents()[i],
            rooted(*old(frames)) ==> rooted(*final(frames)),
            forall|k: int|
                is_kernel_slot(k) ==> #[trigger] final(
                    frames).contents()[self.root.number as int]@[k] == 0,
            forall|r: int|
                is_root(*old(frames), r) && r != self.root.number ==> #[trigger] is_root(
                    *final(frames),
                    r,
                ),
            forall|r: int, v: u64|
                is_root(*old(frames), r) && r != self.root.number ==> #[trigger] walk(
                    *final(frames),
                    r,
                    v,
                ) == walk(*old(frames), r, v),
    {
        let ghost start = *frames;
        let ghost r = self.root.number as int;
        let at: usize = self.root.number as usize;
        frames.memory[at][SLOT_HHDM] = 0;
        let ghost first = *frames;
        frames.memory[at][SLOT_DYNAMIC] = 0;
        let ghost second = *frames;
        frames.memory[at][SLOT_IMAGE] = 0;
        let ghost third = *frames;
        frames.uses.set(at, FrameUse::Retired(owner));
        proof {
            entry_cleared(start, first, r, SLOT_HHDM as int);
            entry_cleared(first, second, r, SLOT_DYNAMIC as int);
            entry_cleared(second, third, r, SLOT_IMAGE as int);
            assert forall|x: int, k: int| 0 <= x < third.frames() && 0 <= k < 512 implies !(
            #[trigger] points_to(third, x, k, r)) by {
                assert(entry_ok(0, third.labels@, third.labels@[x], k, third.memory@[x]@[k]));
            }
            frames.labels@ = frames.labels@.update(r, None);
            orphan_released(third, *frames, r);
            let after = *frames;
            if rooted(start) {
                assert forall|t: int| 0 <= t < after.frames() && #[trigger] is_low_table(after, t) implies {
                    let (x, k) = after.parents@[t];
                    0 <= x < after.frames() && 0 <= k < 512 && points_to(after, x, k, t)
                } by {
                    let (x, k) = after.parents@[t];
                    assert(is_low_table(start, t));
                    assert(points_to(start, x, k, t));
                    assert(entry_ok(0, start.labels@, start.labels@[x], k, start.memory@[x]@[k]));
                    if x == r {
                        assert(k < 256);
                        assert(!present(start.contents()[r]@[k]));
                    }
                    assert(after.memory@[x] == start.memory@[x]);
                }
            }
            assert forall|q: int, v: u64| is_root(start, q) && q != r implies #[trigger] walk(
                *frames,
                q,
                v,
            ) == walk(start, q, v) by {
                root_prefix(v);
                topmost_table_is_private(
                    start.memory@,
                    start.labels@,
                    q,
                    3,
                    v,
                    r,
                    frames.memory@,
                );
            }
        }
    }
}

} // verus!
