//! The address spaces of domains, one page at a time.
//!
//! What a domain maps and unmaps in the lower half of its own space changes no
//! translation in any other.

use vstd::prelude::*;

use crate::arch::x86_64::paging::{
    all_given_back, ceased, data_kept, data_kept_on, has_kernel_slots, home_kept, homes_kept,
    homes_kept_on, in_large_range, interior_kept, interior_kept_on, is_canonical, is_kernel_slot,
    is_low_table, is_root, large_bits, large_page_at, leaf_alone_decides, leaf_bits,
    leaf_bits_say_the_rights, leaf_given_back, leaves_in, points_to, rooted,
    shared_slots_translate_alike, shares_kernel, shares_slot, sharing_stays,
    tables_in, translations_kept, unlabelled_pages_are_ignored, upper_clear, uses_translate_nothing,
    walk, AddressSpace, MapError, Reclaimed, LARGE, SLOT_DYNAMIC, SLOT_HHDM,
};
use crate::backing::covers;
use crate::kstack::{
    is_off_stacks, stack_ok, stack_page, stack_page_is_off_others, stack_pages_are_dynamic,
    stacks_ok, stacks_stay,
};
use crate::layout::{kstack_slot_base, KSTACK_PAGES};
use crate::limits::{MAX_DOMAINS, MAX_THREADS};
use crate::mm::{
    count_use_changes, is_zero, retired_use, Frame, FrameAllocator, FrameUse, Owner, Rights,
    PHYSICAL_FRAMES,
};
use crate::page_table::{
    child_of, descend, large, lookup, prefix_continues, present, root_prefix, same_page, slot_of,
    target, way_is_open, Page, Step, UPPER_HALF, USER,
};
use crate::state::{translations, Domain, DomainState, Machine, MachineModel};

verus! {

/// First address above the lower half.
pub const USER_END: u64 = 0x8000_0000_0000;

/// Page `i` of a range that starts at `vaddr`.
pub open spec fn page_at(vaddr: u64, i: int) -> u64 {
    (vaddr + i * 0x1000) as u64
}

/// Frames either keep their use, or were free and serve `owner` as tables.
pub open spec fn tables_grew(before: Seq<FrameUse>, after: Seq<FrameUse>, owner: Owner) -> bool {
    &&& after.len() == before.len()
    &&& forall|i: int|
        0 <= i < before.len() ==> {
            ||| #[trigger] after[i] == before[i]
            ||| before[i] == FrameUse::Free && after[i] == FrameUse::Table(owner)
        }
}

impl MachineModel {
    /// The frame of a domain's topmost table.
    pub open spec fn root_of(self, d: int) -> int {
        (self.domains[d].space->0).number as int
    }

    /// The address translates, to a page of the smallest size.
    pub open spec fn is_mapped(self, root: int, v: u64) -> bool {
        self.pages.contains_key((root, v)) && self.pages[(root, v)].0 == 0
    }

    /// The machine once a page of a space has been unmapped.
    pub open spec fn unmap_page(self, root: int, v: u64) -> MachineModel {
        if self.is_mapped(root, v) {
            MachineModel { pages: without_page(self.pages, root, v), ..self }
        } else {
            self
        }
    }

    /// The machine once a page of a space has been mapped with an entry.
    pub open spec fn map_page(self, root: int, v: u64, entry: u64) -> MachineModel {
        MachineModel { pages: with_page(self.pages, root, v, entry), ..self }
    }

    /// The machine, and the number of pages removed, once the first `n` pages of
    /// a range have been unmapped.
    pub open spec fn unmap_pages(self, root: int, vaddr: u64, n: nat) -> (MachineModel, u32)
        decreases n,
    {
        if n == 0 {
            (self, 0)
        } else {
            let (before, removed) = self.unmap_pages(root, vaddr, (n - 1) as nat);
            let v = page_at(vaddr, n - 1);
            (
                before.unmap_page(root, v),
                if before.is_mapped(root, v) {
                    (removed + 1) as u32
                } else {
                    removed
                },
            )
        }
    }

    /// None of the first `n` pages of a range translates.
    pub open spec fn is_clear(self, root: int, vaddr: u64, n: int) -> bool {
        forall|i: int|
            0 <= i < n ==> !self.pages.contains_key((root, #[trigger] page_at(vaddr, i)))
    }
}

/// The translations once a page of a space has been unmapped.
pub open spec fn without_page(
    pages: Map<(int, u64), (nat, u64)>,
    root: int,
    v: u64,
) -> Map<(int, u64), (nat, u64)> {
    Map::new(
        |k: (int, u64)| pages.contains_key(k) && !(k.0 == root && same_page(k.1, v, 0)),
        |k: (int, u64)| pages[k],
    )
}

/// The translations once a page of a space has been mapped with an entry.
pub open spec fn with_page(
    pages: Map<(int, u64), (nat, u64)>,
    root: int,
    v: u64,
    entry: u64,
) -> Map<(int, u64), (nat, u64)> {
    Map::new(
        |k: (int, u64)|
            pages.contains_key(k) || k.0 == root && k.1 < USER_END && same_page(k.1, v, 0),
        |k: (int, u64)|
            if k.0 == root && same_page(k.1, v, 0) {
                (0nat, entry)
            } else {
                pages[k]
            },
    )
}

/// The entry that maps page `i` of a run of frames.
pub open spec fn run_entry(base: Frame, i: int, rights: Rights) -> u64 {
    ((base.number + i) * 0x1000) as u64 | leaf_bits(rights)
}

/// The translations once the first `n` pages of a range have been mapped to a
/// run of frames.
pub open spec fn with_run(
    pages: Map<(int, u64), (nat, u64)>,
    root: int,
    vaddr: u64,
    base: Frame,
    rights: Rights,
    n: nat,
) -> Map<(int, u64), (nat, u64)>
    decreases n,
{
    if n == 0 {
        pages
    } else {
        with_page(
            with_run(pages, root, vaddr, base, rights, (n - 1) as nat),
            root,
            page_at(vaddr, n - 1),
            run_entry(base, n - 1, rights),
        )
    }
}

/// No address of a page translates.
pub open spec fn page_clear(pages: Map<(int, u64), (nat, u64)>, root: int, v: u64) -> bool {
    forall|w: u64| same_page(w, v, 0) ==> !(#[trigger] pages.contains_key((root, w)))
}

/// Unmapping a page that was clear before it was mapped restores everything.
pub proof fn unmap_undoes_map(
    pages: Map<(int, u64), (nat, u64)>,
    root: int,
    v: u64,
    entry: u64,
)
    requires
        page_clear(pages, root, v),
    ensures
        without_page(with_page(pages, root, v, entry), root, v) == pages,
{
    assert(without_page(with_page(pages, root, v, entry), root, v) =~= pages);
}

/// Mapping a run takes no translation away.
proof fn run_only_adds(
    pages: Map<(int, u64), (nat, u64)>,
    root: int,
    vaddr: u64,
    base: Frame,
    rights: Rights,
    n: nat,
    k: (int, u64),
)
    requires
        pages.contains_key(k),
    ensures
        with_run(pages, root, vaddr, base, rights, n).contains_key(k),
    decreases n,
{
    if n > 0 {
        run_only_adds(pages, root, vaddr, base, rights, (n - 1) as nat, k);
    }
}

/// Addresses of one page translate alike.
proof fn walk_of_page(mem: Seq<Page>, t: int, level: nat, v: u64, w: u64)
    requires
        level <= 3,
        same_page(v, w, 0),
    ensures
        lookup(0, mem, t, level, v) == lookup(0, mem, t, level, w),
    decreases level,
{
    slots_of_page(v, w);
    let e = mem[t]@[slot_of(v, level)];
    if present(e) && level > 0 && !large(e) {
        walk_of_page(mem, child_of(0, e), (level - 1) as nat, v, w);
    }
}

/// Addresses of one page select the same entries on every level.
pub proof fn slots_of_page(v: u64, w: u64)
    requires
        same_page(v, w, 0),
    ensures
        slot_of(v, 0) == slot_of(w, 0),
        slot_of(v, 1) == slot_of(w, 1),
        slot_of(v, 2) == slot_of(w, 2),
        slot_of(v, 3) == slot_of(w, 3),
{
    prefix_continues(v, 1);
    prefix_continues(w, 1);
    prefix_continues(v, 2);
    prefix_continues(w, 2);
    prefix_continues(v, 3);
    prefix_continues(w, 3);
}

/// What an address translates to is the walk from the topmost table.
proof fn pages_are_walks(frames: FrameAllocator, r: int, v: u64)
    ensures
        ({
            let pages = translations(frames.memory@, frames.labels@);
            &&& pages.contains_key((r, v)) == (v < USER_END && is_root(frames, r) && walk(
                frames,
                r,
                v,
            ) is Some)
            &&& pages.contains_key((r, v)) ==> pages[(r, v)] == walk(
                frames,
                r,
                v,
            )->0
        }),
{
    reveal(translations);
}

impl Machine {
    /// Tables stay owned and shared where they only grew, and those that came
    /// belong to `owner`.
    proof fn grown_tables_stay(self, before: Machine, owner: Owner, home: int, v: u64)
        requires
            before.frames.wf(),
            before.spaces_ok(),
            self.frames.wf(),
            interior_kept(before.frames, self.frames),
            rooted(self.frames),
            homes_kept(before.frames, self.frames, home, v),
            self.kernel_space == before.kernel_space,
            self.domains@.len() == before.domains@.len(),
            forall|d: int|
                0 <= d < before.domains@.len() ==> #[trigger] self.domains@[d].space
                    == before.domains@[d].space,
            forall|i: int|
                0 <= i < before.frames.frames() && (#[trigger] self.frames.uses@[i]) is Table
                    ==> self.frames.uses@[i] == before.frames.uses@[i] || (before.frames.uses@[i]
                    == FrameUse::Free && self.frames.uses@[i] == FrameUse::Table(owner)),
            !(owner is Kernel) ==> (owner matches Owner::Domain(d) && {
                &&& d < self.domains@.len()
                &&& self.domains@[d as int].space is Some
                &&& (self.domains@[d as int].space->0).number == home
                &&& v < USER_END
            }),
        ensures
            self.kernel_is_shared(),
            self.tables_are_owned(),
    {
        assert forall|i: int| 0 <= i < self.frames.uses@.len() implies self.table_is_owned(
            #[trigger] self.frames.uses@[i],
            i,
        ) by {
            if let FrameUse::Table(Owner::Domain(d)) = self.frames.uses@[i] {
                assert(self.frames.labels@[i] is Some);
                assert(home_kept(before.frames, self.frames, home, v, i)) by {
                    let label = self.frames.labels_spec()[i];
                }
                let label = before.frames.labels_spec()[i];
                if label is Some {
                    assert(before.frames.uses@[i] is Table);
                    assert(before.table_is_owned(before.frames.uses@[i], i));
                    if let FrameUse::Table(Owner::Domain(e)) = before.frames.uses@[i] {
                        assert(self.domains@[e as int].space == before.domains@[e as int].space);
                        if is_low_table(before.frames, i) {
                            assert(is_low_table(self.frames, i));
                        }
                    }
                }
            }
        }
        if self.kernel_space is Some {
            let f = (self.kernel_space->0).number as int;
            assert forall|d: int| 0 <= d < self.domains@.len() implies (
            #[trigger] self.domains@[d].space matches Some(g) ==> shares_kernel(
                self.frames,
                g.number as int,
                f,
            )) by {
                assert(self.domains@[d].space == before.domains@[d].space);
                if let Some(g) = self.domains@[d].space {
                    assert(is_root(before.frames, g.number as int));
                    assert(shares_kernel(before.frames, g.number as int, f));
                    assert forall|k: int| #[trigger] is_kernel_slot(k) implies shares_slot(
                        self.frames,
                        g.number as int,
                        f,
                        k,
                    ) by {
                        sharing_stays(before.frames, self.frames, g.number as int, f, k);
                    }
                }
            }
            assert forall|k: int| #[trigger] is_kernel_slot(k) implies shares_slot(
                self.frames,
                f,
                f,
                k,
            ) by {
                sharing_stays(before.frames, self.frames, f, f, k);
            }
        }
    }

    /// Kernel stacks stay where the kernel's own translations do.
    proof fn kept_stacks_stay(self, before: Machine)
        requires
            stacks_ok(before.frames.memory@, before.kernel_space, before.kstacks@, -1),
            self.kernel_as(before),
            self.kernel_space == before.kernel_space,
            self.kstacks@ == before.kstacks@,
        ensures
            stacks_ok(self.frames.memory@, self.kernel_space, self.kstacks@, -1),
    {
        if self.kernel_space is Some {
            assert forall|slot: int, page: int|
                0 <= slot < MAX_THREADS && slot != -1 && -1 <= page < KSTACK_PAGES implies lookup(
                0,
                self.frames.memory@,
                (self.kernel_space->0).number as int,
                3,
                #[trigger] stack_page(slot, page),
            ) == lookup(
                0,
                before.frames.memory@,
                (self.kernel_space->0).number as int,
                3,
                stack_page(slot, page),
            ) by {
                let v = stack_page(slot, page);
                assert(self.kernel_walk(v) == before.kernel_walk(v));
            }
        }
        stacks_stay(
            before.frames.memory@,
            self.frames.memory@,
            self.kernel_space,
            self.kstacks@,
            -1,
        );
    }

    /// Tables are missing for a page, and no frames are left for them.
    pub open spec fn lacks_tables(self, d: int, v: u64) -> bool {
        let space = AddressSpace { root: self@.domains[d].space->0 };
        self.frames.free_frames() < space.missing(self.frames, 0, v)
    }

    /// Removes one page from a domain's space.
    pub fn unmap_page(&mut self, d: usize, v: u64) -> (removed: bool)
        requires
            old(self).wf(),
            d < MAX_DOMAINS,
            old(self)@.domains[d as int].space is Some,
            v < USER_END,
            v % 0x1000 == 0,
        ensures
            final(self).wf(),
            removed == old(self)@.is_mapped(old(self)@.root_of(d as int), v),
            final(self).kernel_as(*old(self)),
            final(self)@ == old(self)@.unmap_page(old(self)@.root_of(d as int), v),
    {
        proof {
            reveal(Machine::wf_but);
        }
        let root = match self.domains[d].space {
            Some(root) => root,
            None => {
                return false;
            },
        };
        assert(self.domains@[d as int].space == Some(root));
        let space = AddressSpace { root };
        let ghost r = root.number as int;
        let ghost before = self.frames;
        proof {
            low_is_canonical(v);
        }
        let found = space.unmap(v, &mut self.frames);
        proof {
            pages_are_walks(before, r, v);
            assert(old(self)@.is_mapped(r, v) == (found is Some));
            if found is Some {
                let after = self.frames;
                let next = old(self)@.unmap_page(r, v);
                assert forall|k: (int, u64)| #[trigger]
                    self@.pages.contains_key(k) == next.pages.contains_key(k) && (
                    self@.pages.contains_key(k) ==> self@.pages[k] == next.pages[k]) by {
                    pages_are_walks(before, k.0, k.1);
                    pages_are_walks(after, k.0, k.1);
                    assert(is_root(before, k.0) == is_root(after, k.0));
                    if is_root(before, k.0) {
                        if k.0 == r {
                            if same_page(k.1, v, 0) {
                                assert(space.translation(after, k.1) is None);
                            } else {
                                assert(walk(after, r, k.1) == walk(before, r, k.1));
                            }
                        } else {
                            assert(walk(after, k.0, k.1) == walk(before, k.0, k.1));
                        }
                    }
                }
                assert(self@.pages =~= next.pages);
                assert(self@ =~= next);
                assert forall|i: int, w: u64|
                    0 <= i < self.domains@.len() && self.domains@[i].space is Some && slot_of(w, 3)
                        >= SLOT_HHDM && !is_kernel_slot(slot_of(w, 3)) implies (#[trigger] walk(
                    after,
                    ((#[trigger] self.domains@[i].space)->0).number as int,
                    w,
                )) is None by {
                    upper_is_elsewhere(w, v);
                    assert(is_root(before, (self.domains@[i].space->0).number as int));
                    assert(walk(after, (self.domains@[i].space->0).number as int, w) == walk(
                        before,
                        (self.domains@[i].space->0).number as int,
                        w,
                    ));
                }
                self.grown_tables_stay(*old(self), Owner::Kernel, r, v);
                assert(self.spaces_ok());
                assert(self.kernel_as(*old(self))) by {
                    if self.kernel_space is Some {
                        let q = (self.kernel_space->0).number as int;
                        assert(is_root(before, q) && q != r);
                        assert forall|w: u64| #[trigger] self.kernel_walk(w) == old(
                            self,
                        ).kernel_walk(w) by {
                            assert(walk(after, q, w) == walk(before, q, w));
                        }
                    }
                }
                self.kept_stacks_stay(*old(self));
                self@.backing().stands_on(old(self)@.backing());
            } else {
                assert(self@ =~= old(self)@);
            }
        }
        found.is_some()
    }

    /// Maps one page of a domain's space.
    pub fn map_page(&mut self, d: usize, v: u64, frame: Frame, rights: Rights) -> (result: Result<
        (),
        MapError,
    >)
        requires
            old(self).wf(),
            d < MAX_DOMAINS,
            old(self)@.domains[d as int].space is Some,
            v < USER_END,
            v % 0x1000 == 0,
            frame.number < PHYSICAL_FRAMES,
            rights.fault() is None,
            forall|w: u64|
                same_page(w, v, 0) && w < USER_END ==> #[trigger] old(self)@.backing().backs(
                    d as int,
                    w,
                    frame.number as int,
                ),
        ensures
            final(self).wf(),
            tables_grew(old(self)@.uses, final(self)@.uses, Owner::Domain(d as u16)),
            final(self).kernel_as(*old(self)),
            data_kept(old(self).frames, final(self).frames),
            ({
                let m = old(self)@;
                let root = m.root_of(d as int);
                let after = MachineModel { uses: final(self)@.uses, ..m };
                match result {
                    Ok(()) => {
                        &&& !m.pages.contains_key((root, v))
                        &&& !old(self).lacks_tables(d as int, v)
                        &&& final(self).frames.free_frames() >= old(
                            self,
                        ).frames.free_frames() - 3
                        &&& final(self)@ == after.map_page(
                            root,
                            v,
                            (frame.address() as u64) | leaf_bits(rights),
                        )
                    },
                    Err(e) => {
                        &&& final(self)@ == after
                        &&& old(self).page_refused(d as int, v, e)
                    },
                }
            }),
    {
        proof {
            reveal(Machine::wf_but);
        }
        let root = match self.domains[d].space {
            Some(root) => root,
            None => {
                return Err(MapError::BadAddress);
            },
        };
        assert(self.domains@[d as int].space == Some(root));
        let space = AddressSpace { root };
        let ghost r = root.number as int;
        let ghost before = self.frames;
        proof {
            low_is_canonical(v);
        }
        let result = space.map(v, frame, rights, &mut self.frames, Owner::Domain(d as u16));
        proof {
            pages_are_walks(before, r, v);
            let after = self.frames;
            let kept = MachineModel { uses: self@.uses, ..old(self)@ };
            let entry = (frame.address() as u64) | leaf_bits(rights);
            let next = if result is Ok {
                kept.map_page(r, v, entry)
            } else {
                kept
            };
            assert forall|k: (int, u64)| #[trigger]
                self@.pages.contains_key(k) == next.pages.contains_key(k) && (
                self@.pages.contains_key(k) ==> self@.pages[k] == next.pages[k]) by {
                pages_are_walks(before, k.0, k.1);
                pages_are_walks(after, k.0, k.1);
                assert(is_root(before, k.0) == is_root(after, k.0));
                if is_root(before, k.0) {
                    if k.0 == r {
                        if result is Ok && same_page(k.1, v, 0) {
                            assert(space.translation(after, k.1) == Some((0nat, entry)));
                        } else {
                            assert(walk(after, r, k.1) == walk(before, r, k.1));
                        }
                    } else {
                        assert(walk(after, k.0, k.1) == walk(before, k.0, k.1));
                    }
                }
            }
            assert(self@.pages =~= next.pages);
            assert(self@ =~= next);
            assert(self.kernel_as(*old(self))) by {
                if self.kernel_space is Some {
                    assert(is_root(before, (self.kernel_space->0).number as int));
                }
            }
            self.kept_stacks_stay(*old(self));
            assert forall|i: int, w: u64|
                0 <= i < self.domains@.len() && self.domains@[i].space is Some && slot_of(w, 3)
                    >= SLOT_HHDM && !is_kernel_slot(slot_of(w, 3)) implies (#[trigger] walk(
                after,
                ((#[trigger] self.domains@[i].space)->0).number as int,
                w,
            )) is None by {
                upper_is_elsewhere(w, v);
                assert(is_root(before, (self.domains@[i].space->0).number as int));
                assert(walk(after, (self.domains@[i].space->0).number as int, w) == walk(
                    before,
                    (self.domains@[i].space->0).number as int,
                    w,
                ));
            }
            assert(self.spaces_ok()) by {
                self.grown_tables_stay(*old(self), Owner::Domain(d as u16), r, v);
                assert(forall|i: int|
                    0 <= i < self.domains@.len() ==> (#[trigger] self.domains@[i].space matches Some(
                        f,
                    ) ==> is_root(before, f.number as int)));
            }
            assert(self@.backing().stands()) by {
                let was = old(self)@.backing();
                let now = self@.backing();
                leaf_bits_say_the_rights(frame.address() as u64, rights);
                assert(target(entry) as int / 0x1000 == frame.number);
                assert forall|e: int, w: u64| #[trigger] now.has_page(e, w) implies {
                    ||| was.has_page(e, w) && now.pages[(now.root(e), w)] == was.pages[(
                        was.root(e),
                        w,
                    )]
                    ||| e == d && same_page(w, v, 0) && w < USER_END && now.pages[(
                        now.root(e),
                        w,
                    )] == (0nat, entry)
                } by {
                    pages_are_walks(after, now.root(e), w);
                    if now.root(e) == r {
                        assert(self.domains@[e].space == self.domains@[d as int].space);
                        assert(e == d);
                    }
                }
                if result is Ok {
                    now.stands_with_page(was, d as int, v, entry);
                } else {
                    now.stands_on(was);
                }
            }
        }
        result
    }

    /// A page whose first address does not translate is clear.
    pub proof fn clear_from_start(self, root: int, v: u64)
        requires
            !self@.pages.contains_key((root, v)),
            v < USER_END,
        ensures
            page_clear(self@.pages, root, v),
    {
        pages_are_walks(self.frames, root, v);
        assert forall|w: u64| same_page(w, v, 0) implies !(#[trigger] self@.pages.contains_key(
            (root, w),
        )) by {
            pages_are_walks(self.frames, root, w);
            walk_of_page(self.frames.memory@, root, 3, w, v);
        }
    }

    /// Mapping a run in a domain's space fails at some page, after those before
    /// it have been mapped.
    pub open spec fn run_refused(
        self,
        d: int,
        vaddr: u64,
        base: Frame,
        rights: Rights,
        count: int,
        e: MapError,
    ) -> bool {
        exists|mid: Machine, k: int|
            {
                &&& 0 <= k < count
                &&& mid@ == (MachineModel {
                    uses: mid@.uses,
                    pages: with_run(
                        self@.pages,
                        self@.root_of(d),
                        vaddr,
                        base,
                        rights,
                        k as nat,
                    ),
                    ..self@
                })
                &&& #[trigger] mid.page_refused(d, page_at(vaddr, k), e)
            }
    }

    /// Maps a run of frames at the pages of a range, or nothing.
    #[verifier::rlimit(100)]
    #[verifier::spinoff_prover]
    pub fn map_pages(&mut self, d: usize, vaddr: u64, base: Frame, rights: Rights, count: u32) -> (
        result: Result<(), MapError>)
        requires
            old(self).wf(),
            d < MAX_DOMAINS,
            old(self)@.domains[d as int].space is Some,
            vaddr + count * 0x1000 <= USER_END,
            vaddr % 0x1000 == 0,
            base.number + count <= PHYSICAL_FRAMES,
            rights.fault() is None,
            forall|w: u64|
                covers(vaddr, count, w) ==> #[trigger] old(self)@.backing().run_backs(
                    d as int,
                    vaddr,
                    base.number as int,
                    w,
                ),
        ensures
            final(self).wf(),
            tables_grew(old(self)@.uses, final(self)@.uses, Owner::Domain(d as u16)),
            ({
                let m = old(self)@;
                let root = m.root_of(d as int);
                match result {
                    Ok(()) => {
                        &&& m.is_clear(root, vaddr, count as int)
                        &&& final(self)@ == (MachineModel {
                            uses: final(self)@.uses,
                            pages: with_run(m.pages, root, vaddr, base, rights, count as nat),
                            ..m
                        })
                    },
                    Err(e) => {
                        &&& final(self)@ == (MachineModel { uses: final(self)@.uses, ..m })
                        &&& old(self).run_refused(
                            d as int,
                            vaddr,
                            base,
                            rights,
                            count as int,
                            e,
                        )
                    },
                }
            }),
    {
        let ghost m = self@;
        let ghost root = m.root_of(d as int);
        for i in 0..count
            invariant
                self.wf(),
                m == old(self)@,
                root == m.root_of(d as int),
                d < MAX_DOMAINS,
                m.domains[d as int].space is Some,
                vaddr + count * 0x1000 <= USER_END,
                vaddr % 0x1000 == 0,
                base.number + count <= PHYSICAL_FRAMES,
                rights.fault() is None,
                forall|w: u64|
                    covers(vaddr, count, w) ==> #[trigger] m.backing().run_backs(
                        d as int,
                        vaddr,
                        base.number as int,
                        w,
                    ),
                tables_grew(m.uses, self@.uses, Owner::Domain(d as u16)),
                self@ == (MachineModel {
                    uses: self@.uses,
                    pages: with_run(m.pages, root, vaddr, base, rights, i as nat),
                    ..m
                }),
                forall|j: int|
                    0 <= j < i ==> page_clear(
                        with_run(m.pages, root, vaddr, base, rights, j as nat),
                        root,
                        #[trigger] page_at(vaddr, j),
                    ),
        {
            let v: u64 = vaddr + i as u64 * 0x1000;
            let frame = Frame { number: base.number + i as u64 };
            let ghost mid = *self;
            assert(frame.address() == (base.number + i) * 0x1000);
            assert(v == page_at(vaddr, i as int));
            proof {
                self.wf_sized();
                assert forall|w: u64| same_page(w, v, 0) && w < USER_END implies
                    #[trigger] self@.backing().backs(d as int, w, frame.number as int) by {
                    low_pages_are_numbered(w, v);
                    assert(m.backing().run_backs(d as int, vaddr, base.number as int, w));
                    self@.backing().backing_goes_on(
                        m.backing(),
                        d as int,
                        w,
                        frame.number as int,
                    );
                }
            }
            match self.map_page(d, v, frame, rights) {
                Ok(()) => {
                    proof {
                        mid.clear_from_start(root, v);
                    }
                },
                Err(error) => {
                    assert(mid.page_refused(d as int, page_at(vaddr, i as int), error));
                    assert(old(self).run_refused(
                        d as int,
                        vaddr,
                        base,
                        rights,
                        count as int,
                        error,
                    ));
                    self.unmap_run(d, vaddr, i, Ghost(m), Ghost(base), Ghost(rights));
                    return Err(error);
                },
            }
        }
        assert forall|i: int| 0 <= i < count implies !m.pages.contains_key(
            (root, #[trigger] page_at(vaddr, i)),
        ) by {
            if m.pages.contains_key((root, page_at(vaddr, i))) {
                run_only_adds(
                    m.pages,
                    root,
                    vaddr,
                    base,
                    rights,
                    i as nat,
                    (root, page_at(vaddr, i)),
                );
            }
        }
        Ok(())
    }

    /// Takes back the first `count` pages of a run, last to first.
    fn unmap_run(
        &mut self,
        d: usize,
        vaddr: u64,
        count: u32,
        Ghost(m): Ghost<MachineModel>,
        Ghost(base): Ghost<Frame>,
        Ghost(rights): Ghost<Rights>,
    )
        requires
            old(self).wf(),
            d < MAX_DOMAINS,
            m.domains[d as int].space is Some,
            vaddr + count * 0x1000 <= USER_END,
            vaddr % 0x1000 == 0,
            old(self)@ == (MachineModel {
                uses: old(self)@.uses,
                pages: with_run(
                    m.pages,
                    m.root_of(d as int),
                    vaddr,
                    base,
                    rights,
                    count as nat,
                ),
                ..m
            }),
            forall|j: int|
                0 <= j < count ==> page_clear(
                    with_run(m.pages, m.root_of(d as int), vaddr, base, rights, j as nat),
                    m.root_of(d as int),
                    #[trigger] page_at(vaddr, j),
                ),
        ensures
            final(self).wf(),
            final(self)@ == (MachineModel { uses: old(self)@.uses, ..m }),
    {
        let ghost root = m.root_of(d as int);
        let mut left: u32 = count;
        while left > 0
            invariant
                self.wf(),
                d < MAX_DOMAINS,
                left <= count,
                root == m.root_of(d as int),
                m.domains[d as int].space is Some,
                vaddr + count * 0x1000 <= USER_END,
                vaddr % 0x1000 == 0,
                self@ == (MachineModel {
                    uses: old(self)@.uses,
                    pages: with_run(m.pages, root, vaddr, base, rights, left as nat),
                    ..m
                }),
                forall|j: int|
                    0 <= j < count ==> page_clear(
                        with_run(m.pages, root, vaddr, base, rights, j as nat),
                        root,
                        #[trigger] page_at(vaddr, j),
                    ),
            decreases left,
        {
            left -= 1;
            let v: u64 = vaddr + left as u64 * 0x1000;
            let ghost below = with_run(m.pages, root, vaddr, base, rights, left as nat);
            proof {
                assert(v == page_at(vaddr, left as int));
                unmap_undoes_map(below, root, v, run_entry(base, left as int, rights));
                assert(same_page(v, v, 0));
                assert(self@.is_mapped(root, v));
            }
            self.unmap_page(d, v);
        }
    }

    /// Why a page cannot be mapped.
    pub open spec fn page_refused(self, d: int, v: u64, e: MapError) -> bool {
        let root = self@.root_of(d);
        match e {
            MapError::AlreadyMapped => self@.is_mapped(root, v),
            MapError::LargePageInTheWay => self@.pages.contains_key((root, v))
                && !self@.is_mapped(root, v),
            MapError::OutOfMemory => !self@.pages.contains_key((root, v)) && self.lacks_tables(
                d,
                v,
            ),
            _ => false,
        }
    }

    /// Removes the pages of a range from a domain's space; returns how many it
    /// removed.
    pub fn unmap_pages(&mut self, d: usize, vaddr: u64, count: u32) -> (removed: u32)
        requires
            old(self).wf(),
            d < MAX_DOMAINS,
            old(self)@.domains[d as int].space is Some,
            vaddr + count * 0x1000 <= USER_END,
            vaddr % 0x1000 == 0,
        ensures
            final(self).wf(),
            (final(self)@, removed) == old(self)@.unmap_pages(
                old(self)@.root_of(d as int),
                vaddr,
                count as nat,
            ),
            removed <= count,
    {
        let ghost root = self@.root_of(d as int);
        let mut removed: u32 = 0;
        for i in 0..count
            invariant
                self.wf(),
                d < MAX_DOMAINS,
                self@.domains == old(self)@.domains,
                root == self@.root_of(d as int),
                old(self)@.domains[d as int].space is Some,
                vaddr + count * 0x1000 <= USER_END,
                vaddr % 0x1000 == 0,
                removed <= i,
                (self@, removed) == old(self)@.unmap_pages(root, vaddr, i as nat),
        {
            let v: u64 = vaddr + i as u64 * 0x1000;
            if self.unmap_page(d, v) {
                removed += 1;
            }
        }
        removed
    }

    /// The addresses of one page translate to one entry.
    pub proof fn page_translates_alike(self, d: int, v: u64, w: u64)
        requires
            self.wf(),
            v < USER_END,
            w < USER_END,
            v / 0x1000 == w / 0x1000,
        ensures
            self@.translated(d, v) == self@.translated(d, w),
    {
        reveal(Machine::wf_but);
        let root = self@.root_of(d);
        low_pages_are_numbered(v, w);
        pages_are_walks(self.frames, root, v);
        pages_are_walks(self.frames, root, w);
        walk_of_page(self.frames.memory@, root, 3, v, w);
    }

    /// Once the pages of a range have been unmapped nothing in the range
    /// translates.
    pub proof fn unmapped_range_is_bare(self, d: int, vaddr: u64, count: u32)
        requires
            self.wf(),
            0 <= d < MAX_DOMAINS,
            self@.domains[d].space is Some,
            vaddr + count * 0x1000 <= USER_END,
            vaddr % 0x1000 == 0,
        ensures
            self@.unmap_pages(self@.root_of(d), vaddr, count as nat).0.backing().range_is_bare(
                d,
                vaddr,
                count,
            ),
    {
        let root = self@.root_of(d);
        let after = self@.unmap_pages(root, vaddr, count as nat).0;
        self.wf_sized();
        assert forall|v: u64, w: u64|
            v < USER_END && w < USER_END && same_page(v, w, 0) implies
            #[trigger] self@.pages.contains_key((root, v)) == #[trigger] self@.pages.contains_key(
            (root, w),
        ) by {
            low_pages_are_numbered(v, w);
            self.page_translates_alike(d, v, w);
        }
        assert forall|v: u64| #[trigger] self@.pages.contains_key((root, v)) implies
            self@.pages[(root, v)].0 == 0 by {
            self.wf_stands();
            reveal(crate::backing::Backing::stands);
            assert(self@.backing().has_page(d, v));
            assert(self@.backing().page_stands(d, v));
        }
        assert forall|w: u64| covers(vaddr, count, w) implies !(
        #[trigger] after.backing().has_page(d, w)) by {
            unmapping_clears(self@, root, vaddr, count as nat, w);
            unmapping_keeps_domains(self@, root, vaddr, count as nat);
        }
    }

    /// What an address of the lower half translates to in a domain's space: the
    /// entry of its walk.
    pub fn translate(&self, d: usize, v: u64) -> (entry: Option<u64>)
        requires
            self.wf(),
            d < MAX_DOMAINS,
        ensures
            entry == self@.translated(d as int, v),
    {
        proof {
            reveal(Machine::wf_but);
        }
        if v >= USER_END {
            proof {
                if self@.domains[d as int].space is Some {
                    pages_are_walks(self.frames, self@.root_of(d as int), v);
                }
            }
            return None;
        }
        match self.domains[d].space {
            None => None,
            Some(root) => {
                assert(self.domains@[d as int].space == Some(root));
                proof {
                    pages_are_walks(self.frames, root.number as int, v);
                }
                match (AddressSpace { root }).translate(v, &self.frames) {
                    Some((_, entry)) => Some(entry),
                    None => None,
                }
            },
        }
    }
}

impl Machine {
    /// Gives a domain an empty address space with the kernel's half attached.
    pub fn new_space(&mut self, d: usize) -> (result: Result<(), MapError>)
        requires
            old(self).wf(),
            d < MAX_DOMAINS,
            old(self)@.domains[d as int].space is None,
            old(self)@.domains[d as int].state != DomainState::Empty,
            old(self)@.kernel_space is Some,
        ensures
            final(self).wf(),
            final(self).kernel_as(*old(self)),
            match result {
                Ok(()) => {
                    &&& final(self).frames.free_frames() == old(self).frames.free_frames() - 1
                    &&& {
                        let root = final(self)@.domains[d as int].space->0;
                        &&& root.number < old(self)@.uses.len()
                    &&& shares_kernel(
                        final(self).frames,
                        root.number as int,
                        (final(self)@.kernel_space->0).number as int,
                    )
                    &&& old(self)@.uses[root.number as int] == FrameUse::Free
                    &&& forall|v: u64|
                        !(#[trigger] old(self)@.pages.contains_key((root.number as int, v)))
                    &&& final(self)@ == (MachineModel {
                        uses: old(self)@.uses.update(
                            root.number as int,
                            FrameUse::Table(Owner::Domain(d as u16)),
                        ),
                        ..old(self)@.with_domain(
                            d as int,
                            Domain { space: Some(root), ..old(self)@.domains[d as int] },
                        )
                    })
                    }
                },
                Err(e) => {
                    &&& e == MapError::OutOfMemory
                    &&& old(self).frames.free_frames() == 0
                    &&& final(self)@ == old(self)@
                },
            },
    {
        proof {
            reveal(Machine::wf_but);
        }
        let ghost before = self.frames;
        let kernel = match self.kernel_space {
            Some(root) => AddressSpace { root },
            None => {
                return Err(MapError::OutOfMemory);
            },
        };
        let space = match AddressSpace::new(&mut self.frames, Owner::Domain(d as u16)) {
            Err(error) => {
                return Err(error);
            },
            Ok(space) => space,
        };
        let ghost fresh = self.frames;
        assert(is_root(fresh, kernel.root.number as int));
        space.attach_kernel(&kernel, &mut self.frames);
        let root = space.root;
        self.domains[d].space = Some(root);
        proof {
            let after = self.frames;
            let r = root.number as int;
            let next = MachineModel {
                uses: old(self)@.uses.update(r, FrameUse::Table(Owner::Domain(d as u16))),
                ..old(self)@.with_domain(
                    d as int,
                    Domain { space: Some(root), ..old(self)@.domains[d as int] },
                )
            };
            assert forall|k: (int, u64)| #[trigger]
                self@.pages.contains_key(k) == next.pages.contains_key(k) && (
                self@.pages.contains_key(k) ==> self@.pages[k] == next.pages[k]) by {
                pages_are_walks(before, k.0, k.1);
                pages_are_walks(after, k.0, k.1);
                if k.1 < USER_END {
                    low_slot(k.1);
                    if k.0 == r {
                        assert(!is_root(before, r));
                        assert(space.translation(fresh, k.1) is None);
                        assert(walk(after, r, k.1) == walk(fresh, r, k.1));
                    } else if is_root(before, k.0) {
                        assert(is_root(fresh, k.0));
                        assert(walk(fresh, k.0, k.1) == walk(before, k.0, k.1));
                        assert(walk(after, k.0, k.1) == walk(fresh, k.0, k.1));
                    }
                }
            }
            assert forall|v: u64| !(#[trigger] old(self)@.pages.contains_key((r, v))) by {
                pages_are_walks(before, r, v);
            }
            assert(self@.pages =~= next.pages);
            assert(self@ =~= next);
            count_use_changes(
                old(self)@.uses,
                r,
                FrameUse::Free,
                FrameUse::Table(Owner::Domain(d as u16)),
            );
            assert(self.kernel_as(*old(self))) by {
                let q = kernel.root.number as int;
                assert forall|w: u64| #[trigger] self.kernel_walk(w) == old(self).kernel_walk(
                    w,
                ) by {
                    assert(walk(fresh, q, w) == walk(before, q, w));
                    assert(walk(after, q, w) == walk(fresh, q, w));
                }
            }
            self.kept_stacks_stay(*old(self));
            assert(self.spaces_ok()) by {
                self.new_space_shares(*old(self), fresh, d as int);
                assert forall|i: int| 0 <= i < self.domains@.len() implies (
                #[trigger] self.domains@[i].space matches Some(f) ==> is_root(
                    after,
                    f.number as int,
                ) && upper_clear(after, f.number as int) && self.kernel_space != Some(f)) by {
                    if i != d {
                        assert(old(self).domains@[i].space == self.domains@[i].space);
                        if self.domains@[i].space is Some {
                            let q = (self.domains@[i].space->0).number as int;
                            assert(is_root(fresh, q));
                            assert forall|w: u64|
                                slot_of(w, 3) >= SLOT_HHDM && !is_kernel_slot(
                                    slot_of(w, 3),
                                ) implies (#[trigger] walk(after, q, w)) is None by {
                                assert(walk(fresh, q, w) == walk(before, q, w));
                            }
                        }
                    } else {
                        assert forall|w: u64|
                            slot_of(w, 3) >= SLOT_HHDM && !is_kernel_slot(
                                slot_of(w, 3),
                            ) implies (#[trigger] walk(after, r, w)) is None by {
                            assert(space.translation(fresh, w) is None);
                        }
                    }
                }
                assert forall|i: int, j: int| 0 <= i < j < self.domains@.len() implies ((
                #[trigger] self.domains@[i].space) is Some ==> self.domains@[i].space
                    != #[trigger] self.domains@[j].space) by {
                    assert(i != d ==> old(self).domains@[i].space == self.domains@[i].space);
                    assert(j != d ==> old(self).domains@[j].space == self.domains@[j].space);
                }
            }
            assert(self@.backing().stands()) by {
                let was = old(self)@.backing();
                let now = self@.backing();
                assert forall|e: int, v: u64| #[trigger] now.has_page(e, v) implies was.has_page(
                    e,
                    v,
                ) && now.pages[(now.root(e), v)] == was.pages[(was.root(e), v)] by {
                    if e == d {
                        assert(!old(self)@.pages.contains_key((r, v)));
                    }
                }
                now.stands_on(was);
            }
        }
        Ok(())
    }

    /// A space that was just attached shares the kernel's slots, and the others
    /// share them still.
    proof fn new_space_shares(self, before: Machine, fresh: FrameAllocator, d: int)
        requires
            before.frames.wf(),
            before.spaces_ok(),
            before.kernel_space is Some,
            self.kernel_space == before.kernel_space,
            0 <= d < before.domains@.len(),
            d <= u16::MAX,
            before.domains@[d].space is None,
            self.domains@[d].space is Some,
            self.domains@.len() == before.domains@.len(),
            forall|i: int|
                0 <= i < before.domains@.len() && i != d ==> #[trigger] self.domains@[i].space
                    == before.domains@[i].space,
            fresh.wf(),
            self.frames.wf(),
            interior_kept(before.frames, fresh),
            ({
                let r = (self.domains@[d].space->0).number as int;
                let q = (self.kernel_space->0).number as int;
                &&& r != q
                &&& is_root(fresh, r)
                &&& before.frames.labels@[r] is None
                &&& fresh.labels@ == before.frames.labels@.update(r, Some((3nat, 0int)))
                &&& self.frames.labels@ == fresh.labels@
                &&& self.frames.frames() == fresh.frames() == before.frames.frames()
                &&& self.frames.homes == fresh.homes
                &&& forall|t: int|
                    0 <= t < before.frames.frames() && before.frames.labels_spec()[t] is Some
                        ==> #[trigger] fresh.homes@[t] == before.frames.homes@[t]
                &&& forall|i: int|
                    0 <= i < fresh.frames() && i != r ==> #[trigger] self.frames.contents()[i]
                        == fresh.contents()[i]
                &&& rooted(self.frames)
                &&& self.frames.uses@ == before.frames.uses@.update(
                    r,
                    FrameUse::Table(Owner::Domain(d as u16)),
                )
                &&& has_kernel_slots(fresh, q) ==> shares_kernel(self.frames, r, q)
            }),
        ensures
            self.kernel_is_shared(),
            self.tables_are_owned(),
    {
        let r = (self.domains@[d].space->0).number as int;
        let q = (self.kernel_space->0).number as int;
        assert(is_root(before.frames, q));
        assert forall|k: int| #[trigger] is_kernel_slot(k) implies shares_slot(fresh, q, q, k) by {
            sharing_stays(before.frames, fresh, q, q, k);
        }
        assert(self.frames.contents()[q] == fresh.contents()[q]);
        assert forall|k: int| #[trigger] is_kernel_slot(k) implies shares_slot(
            self.frames,
            q,
            q,
            k,
        ) by {
            assert(shares_slot(fresh, q, q, k));
        }
        assert forall|i: int| 0 <= i < self.domains@.len() implies (
        #[trigger] self.domains@[i].space matches Some(g) ==> shares_kernel(
            self.frames,
            g.number as int,
            q,
        )) by {
            if i != d {
                assert(self.domains@[i].space == before.domains@[i].space);
                if let Some(g) = self.domains@[i].space {
                    let p = g.number as int;
                    assert(is_root(before.frames, p));
                    assert(shares_kernel(before.frames, p, q));
                    assert(self.frames.contents()[p] == fresh.contents()[p]);
                    assert forall|k: int| #[trigger] is_kernel_slot(k) implies shares_slot(
                        self.frames,
                        p,
                        q,
                        k,
                    ) by {
                        sharing_stays(before.frames, fresh, p, q, k);
                    }
                }
            }
        }
        assert forall|i: int| 0 <= i < self.frames.uses@.len() implies self.table_is_owned(
            #[trigger] self.frames.uses@[i],
            i,
        ) by {
            if i == r {
                assert(self.frames.homes@[r] == r) by {
                    assert(self.frames.labels@[r] == Some((3nat, 0int)));
                }
            } else {
                assert(self.frames.uses@[i] == before.frames.uses@[i]);
                assert(before.table_is_owned(before.frames.uses@[i], i));
                if let FrameUse::Table(Owner::Domain(e)) = before.frames.uses@[i] {
                    assert(before.frames.labels@[i] is Some);
                    assert(e != d);
                    assert(self.domains@[e as int].space == before.domains@[e as int].space);
                    assert(self.frames.homes@[i] == before.frames.homes@[i]);
                    assert(is_low_table(before.frames, i) ==> is_low_table(self.frames, i));
                }
            }
        }
    }

    /// Frames that serve as no table can be taken and emptied without anything
    /// else changing.
    pub proof fn emptied_frames_are_none(self, first: Machine)
        requires
            first.wf(),
            self == (Machine { frames: self.frames, ..first }),
            self.frames.wf(),
            self.frames.frames() == first.frames.frames(),
            self.frames.labels == first.frames.labels,
            self.frames.parents == first.frames.parents,
            self.frames.homes == first.frames.homes,
            forall|i: int|
                0 <= i < first.frames.frames() && (#[trigger] first.frames.labels@[i]) is Some
                    ==> self.frames.contents()[i] == first.frames.contents()[i],
            forall|i: int|
                0 <= i < first.frames.frames() && (#[trigger] self.frames.uses@[i]) is Table
                    ==> self.frames.uses@[i] == first.frames.uses@[i],
            forall|i: int|
                0 <= i < first.frames.frames() && (#[trigger] first.frames.uses@[i]) is Held
                    ==> self.frames.uses@[i] == first.frames.uses@[i],
        ensures
            self.wf(),
            self.kernel_as(first),
            self@ == (MachineModel { uses: self@.uses, ..first@ }),
    {
        reveal(Machine::wf_but);
        assert forall|k: (int, u64)| #[trigger]
            self@.pages.contains_key(k) == first@.pages.contains_key(k) && (
            self@.pages.contains_key(k) ==> self@.pages[k] == first@.pages[k]) by {
            pages_are_walks(first.frames, k.0, k.1);
            pages_are_walks(self.frames, k.0, k.1);
            if is_root(first.frames, k.0) {
                root_prefix(k.1);
                unlabelled_pages_are_ignored(
                    first.frames.memory@,
                    first.frames.labels@,
                    k.0,
                    3,
                    k.1,
                    self.frames.memory@,
                );
            }
        }
        assert(self@.pages =~= first@.pages);
        assert(self@ =~= (MachineModel { uses: self@.uses, ..first@ }));
        self@.backing().stands_on(first@.backing());
        assert(self.kernel_as(first)) by {
            if first.kernel_space is Some {
                let q = (first.kernel_space->0).number as int;
                assert forall|w: u64| #[trigger] self.kernel_walk(w) == first.kernel_walk(w) by {
                    root_prefix(w);
                    unlabelled_pages_are_ignored(
                        first.frames.memory@,
                        first.frames.labels@,
                        q,
                        3,
                        w,
                        self.frames.memory@,
                    );
                }
            }
        }
        self.kept_stacks_stay(first);
        assert(self.spaces_ok()) by {
            acquiring_keeps_tables(first.frames, self.frames);
            self.grown_tables_stay(first, Owner::Kernel, 0, 0);
            assert forall|i: int| 0 <= i < self.domains@.len() implies (
            #[trigger] self.domains@[i].space matches Some(f) ==> is_root(
                self.frames,
                f.number as int,
            ) && upper_clear(self.frames, f.number as int) && self.kernel_space != Some(
                f,
            )) by {
                if self.domains@[i].space is Some {
                    let q = (self.domains@[i].space->0).number as int;
                    assert(is_root(first.frames, q) && upper_clear(first.frames, q));
                    assert forall|w: u64|
                        slot_of(w, 3) >= SLOT_HHDM && !is_kernel_slot(
                            slot_of(w, 3),
                        ) implies (#[trigger] walk(self.frames, q, w)) is None by {
                        root_prefix(w);
                        unlabelled_pages_are_ignored(
                            first.frames.memory@,
                            first.frames.labels@,
                            q,
                            3,
                            w,
                            self.frames.memory@,
                        );
                        assert(walk(first.frames, q, w) is None);
                    }
                }
            }
        }
    }

    /// Takes a frame for a domain and maps it in its space.
    pub fn map_fresh(&mut self, d: usize, v: u64, rights: Rights) -> (result: Result<
        Frame,
        MapError,
    >)
        requires
            old(self).wf(),
            d < MAX_DOMAINS,
            old(self)@.domains[d as int].space is Some,
            v < USER_END,
            v % 0x1000 == 0,
            rights.fault() is None,
        ensures
            final(self).wf(),
            frames_took(old(self)@.uses, final(self)@.uses, Owner::Domain(d as u16)),
            final(self).kernel_as(*old(self)),
            forall|i: int|
                0 <= i < old(self)@.uses.len() && #[trigger] final(self)@.uses[i]
                    == FrameUse::Held(Owner::Domain(d as u16)) ==> old(self)@.uses[i]
                    == final(self)@.uses[i] || (result matches Ok(frame) && frame.number == i),
            ({
                let m = old(self)@;
                let root = m.root_of(d as int);
                let after = MachineModel { uses: final(self)@.uses, ..m };
                match result {
                    Ok(frame) => {
                        &&& frame.number < m.uses.len()
                        &&& m.uses[frame.number as int] == FrameUse::Free
                        &&& final(self)@.uses[frame.number as int] == FrameUse::Held(
                            Owner::Domain(d as u16),
                        )
                        &&& is_zero(final(self).frames.contents()[frame.number as int])
                        &&& data_kept(old(self).frames, final(self).frames)
                        &&& !m.pages.contains_key((root, v))
                        &&& final(self).frames.free_frames() >= old(
                            self,
                        ).frames.free_frames() - 4
                        &&& final(self)@ == after.map_page(
                            root,
                            v,
                            (frame.address() as u64) | leaf_bits(rights),
                        )
                    },
                    Err(e) => {
                        &&& final(self)@ == after
                        &&& match e {
                            MapError::AlreadyMapped => m.is_mapped(root, v),
                            MapError::LargePageInTheWay => m.pages.contains_key((root, v))
                                && !m.is_mapped(root, v),
                            MapError::OutOfMemory => old(self).frames.free_frames() <= 3,
                            _ => false,
                        }
                    },
                }
            }),
    {
        proof {
            reveal(Machine::wf_but);
        }
        let owner = Owner::Domain(d as u16);
        let ghost first = *self;
        let frame = match self.frames.acquire(owner) {
            Err(_) => {
                return Err(MapError::OutOfMemory);
            },
            Ok(frame) => frame,
        };
        proof {
            let n = frame.number as int;
            count_use_changes(first.frames.uses@, n, FrameUse::Free, FrameUse::Held(owner));
            self.emptied_frames_are_none(first);
        }
        let ghost middle = *self;
        assert forall|w: u64| same_page(w, v, 0) && w < USER_END implies
            #[trigger] self@.backing().backs(d as int, w, frame.number as int) by {
            assert(self@.backing().holds(d as int, frame.number as int));
        }
        match self.map_page(d, v, frame, rights) {
            Ok(()) => {
                proof {
                    assert(data_kept(first.frames, middle.frames));
                    data_kept_on(first.frames, middle.frames, self.frames);
                    assert(self.frames.contents()[frame.number as int]
                        == middle.frames.contents()[frame.number as int]);
                }
                Ok(frame)
            },
            Err(error) => {
                proof {
                    reveal(Machine::wf_but);
                    if error == MapError::OutOfMemory {
                        missing_is_bounded(
                            AddressSpace { root: middle@.domains[d as int].space->0 },
                            middle.frames,
                            v,
                        );
                    }
                }
                let ghost last = *self;
                self.frames.give_back_run(frame, 1, owner, true);
                proof {
                    uses_translate_nothing(last.frames, self.frames);
                    self.owned_tables_stay(last);
                    assert(self@ =~= last@.frames_back(frame, 1, owner, true));
                    assert(self@.backing().stands()) by {
                        assert(self@.backing().keeps_held(first@.backing()));
                        self@.backing().stands_on(first@.backing());
                    }
                }
                assert(self.kernel_as(first)) by {
                    assert forall|w: u64| #[trigger] self.kernel_walk(w) == last.kernel_walk(
                        w,
                    ) by {}
                    assert forall|w: u64| first.kernel_space is Some implies
                        #[trigger] self.kernel_walk(w) == first.kernel_walk(w) by {
                        assert(last.kernel_walk(w) == middle.kernel_walk(w));
                    }
                }
                Err(error)
            },
        }
    }

    /// Once a space has been taken down its domain owns no table, and the other
    /// spaces share the kernel's slots still.
    proof fn dropped_space_is_gone(self, before: Machine, middle: FrameAllocator, d: int)
        requires
            before.frames.wf(),
            before.spaces_ok(),
            middle.wf(),
            self.frames.wf(),
            self.kernel_space == before.kernel_space,
            0 <= d < before.domains@.len(),
            d <= u16::MAX,
            before.domains@[d].space is Some,
            self.domains@[d].space is None,
            self.domains@.len() == before.domains@.len(),
            forall|i: int|
                0 <= i < before.domains@.len() && i != d ==> #[trigger] self.domains@[i].space
                    == before.domains@[i].space,
            ({
                let r = (before.domains@[d].space->0).number as int;
                let owner = Owner::Domain(d as u16);
                &&& self.frames.frames() == middle.frames() == before.frames.frames()
                &&& all_given_back(before.frames, middle, owner)
                &&& forall|x: int|
                    0 <= x < before.frames.frames() && before.frames.homes@[x] == r
                        && #[trigger] is_low_table(before.frames, x) ==> ceased(
                        before.frames,
                        middle,
                        x,
                    )
                &&& middle.homes == before.frames.homes
                &&& self.frames.homes == middle.homes
                &&& forall|x: int|
                    0 <= x < before.frames.frames() && #[trigger] middle.labels_spec()[x] is Some
                        ==> before.frames.labels_spec()[x] == middle.labels_spec()[x]
                &&& self.frames.labels_spec() == middle.labels_spec().update(r, None)
                &&& self.frames.uses@ == middle.uses@.update(r, FrameUse::Retired(owner))
                &&& space_retired(before.frames.uses@, middle.uses@, owner)
                &&& rooted(self.frames)
                &&& forall|q: int|
                    is_root(before.frames, q) && q != r ==> #[trigger] middle.contents()[q]
                        == before.frames.contents()[q]
                &&& forall|i: int|
                    0 <= i < middle.frames() && i != r ==> #[trigger] self.frames.contents()[i]
                        == middle.contents()[i]
            }),
        ensures
            self.kernel_is_shared(),
            self.tables_are_owned(),
            owns_no_table(self.frames.uses@, d),
    {
        let r = (before.domains@[d].space->0).number as int;
        let owner = Owner::Domain(d as u16);
        assert forall|i: int| 0 <= i < self.frames.uses@.len() implies self.table_is_owned(
            #[trigger] self.frames.uses@[i],
            i,
        ) && self.frames.uses@[i] != FrameUse::Table(owner) by {
            if let FrameUse::Table(Owner::Domain(e)) = self.frames.uses@[i] {
                assert(i != r);
                assert(middle.uses@[i] == self.frames.uses@[i]);
                assert(before.frames.uses@[i] == middle.uses@[i]);
                assert(before.table_is_owned(before.frames.uses@[i], i));
                assert(middle.labels@[i] is Some);
                assert(before.frames.labels_spec()[i] == middle.labels_spec()[i]);
                if e == d {
                    assert(is_low_table(before.frames, i));
                    assert(ceased(before.frames, middle, i));
                }
                assert(self.domains@[e as int].space == before.domains@[e as int].space);
                assert(is_low_table(before.frames, i) ==> is_low_table(self.frames, i));
            }
        }
        if self.kernel_space is Some {
            let q = (self.kernel_space->0).number as int;
            assert(before.kernel_space != before.domains@[d].space);
            assert(is_root(before.frames, q));
            assert(q != r);
            assert(self.frames.contents()[q] == before.frames.contents()[q]) by {
                assert(middle.contents()[q] == before.frames.contents()[q]);
            }
            assert forall|k: int| #[trigger] is_kernel_slot(k) implies shares_slot(
                self.frames,
                q,
                q,
                k,
            ) by {
                assert(shares_slot(before.frames, q, q, k));
            }
            assert forall|i: int| 0 <= i < self.domains@.len() implies (
            #[trigger] self.domains@[i].space matches Some(g) ==> shares_kernel(
                self.frames,
                g.number as int,
                q,
            )) by {
                if i != d {
                    assert(self.domains@[i].space == before.domains@[i].space);
                    if let Some(g) = self.domains@[i].space {
                        let p = g.number as int;
                        assert(is_root(before.frames, p));
                        assert(p != r) by {
                            if i < d {
                                assert(before.domains@[i].space != before.domains@[d].space);
                            } else {
                                assert(before.domains@[d].space != before.domains@[i].space);
                            }
                        }
                        assert(self.frames.contents()[p] == before.frames.contents()[p]) by {
                            assert(middle.contents()[p] == before.frames.contents()[p]);
                        }
                        assert(shares_kernel(before.frames, p, q));
                        assert forall|k: int| #[trigger] is_kernel_slot(k) implies shares_slot(
                            self.frames,
                            p,
                            q,
                            k,
                        ) by {
                            assert(shares_slot(before.frames, p, q, k));
                        }
                    }
                }
            }
        }
    }

    /// Takes a domain's address space down: its pages, its tables and the
    /// topmost table itself.
    pub fn drop_space(&mut self, d: usize) -> (counts: Reclaimed)
        requires
            old(self).wf(),
            d < MAX_DOMAINS,
            old(self)@.domains[d as int].space is Some,
        ensures
            final(self).wf(),
            space_retired(old(self)@.uses, final(self)@.uses, Owner::Domain(d as u16)),
            pages_given_back(old(self)@, final(self)@.uses, d as int),
            owns_no_table(final(self)@.uses, d as int),
            final(self).kernel_as(*old(self)),
            final(self)@ == (MachineModel {
                uses: final(self)@.uses,
                pages: without_space(old(self)@.pages, old(self)@.root_of(d as int)),
                ..old(self)@.with_domain(
                    d as int,
                    Domain { space: None, ..old(self)@.domains[d as int] },
                )
            }),
            ({
                let root = old(self)@.root_of(d as int);
                &&& counts.data_frames == leaves_in(
                    old(self).frames.contents(),
                    root,
                    3,
                    SLOT_HHDM as int,
                )
                &&& counts.table_frames == tables_in(
                    old(self).frames.contents(),
                    root,
                    3,
                    SLOT_HHDM as int,
                )
            }),
    {
        proof {
            reveal(Machine::wf_but);
        }
        let root = match self.domains[d].space {
            Some(root) => root,
            None => {
                return Reclaimed { data_frames: 0, table_frames: 0 };
            },
        };
        assert(self.domains@[d as int].space == Some(root));
        let ghost before = self.frames;
        let ghost r = root.number as int;
        let owner = Owner::Domain(d as u16);
        let space = AddressSpace { root };
        let counts = space.destroy_user_half(&mut self.frames, owner);
        let ghost middle = self.frames;
        proof {
            assert(upper_clear(before, r));
            assert forall|v: u64| !is_kernel_slot(slot_of(v, 3)) implies #[trigger] space.translation(
                middle,
                v,
            ) is None by {
                assert(walk(middle, r, v) == if slot_of(v, 3) < SLOT_HHDM {
                    None
                } else {
                    walk(before, r, v)
                });
            }
        }
        space.release_root(&mut self.frames, owner);
        self.domains[d].space = None;
        proof {
            let after = self.frames;
            let next = MachineModel {
                uses: self@.uses,
                pages: without_space(old(self)@.pages, r),
                ..old(self)@.with_domain(
                    d as int,
                    Domain { space: None, ..old(self)@.domains[d as int] },
                )
            };
            assert forall|k: (int, u64)| #[trigger]
                self@.pages.contains_key(k) == next.pages.contains_key(k) && (
                self@.pages.contains_key(k) ==> self@.pages[k] == next.pages[k]) by {
                pages_are_walks(before, k.0, k.1);
                pages_are_walks(after, k.0, k.1);
                if k.0 != r {
                    if is_root(before, k.0) {
                        assert(is_root(middle, k.0));
                        assert(walk(middle, k.0, k.1) == walk(before, k.0, k.1));
                        assert(walk(after, k.0, k.1) == walk(middle, k.0, k.1));
                    } else {
                        assert(!is_root(middle, k.0));
                        assert(!is_root(after, k.0));
                    }
                } else {
                    assert(!is_root(after, r));
                }
            }
            assert(self@.pages =~= next.pages);
            assert(self@ =~= next);
            assert(pages_given_back(old(self)@, self@.uses, d as int)) by {
                assert forall|v: u64| #[trigger] old(self)@.pages.contains_key((r, v)) implies
                    page_given_back(old(self)@.uses, self@.uses, old(self)@.pages[(r, v)].1, owner) by {
                    pages_are_walks(before, r, v);
                    low_slot(v);
                    let e = old(self)@.pages[(r, v)].1;
                    assert(space.translation(before, v) is Some);
                    assert(leaf_given_back(before, middle, e, owner));
                }
            }
            self.dropped_space_is_gone(*old(self), middle, d as int);
            assert(self.kernel_as(*old(self))) by {
                if self.kernel_space is Some {
                    let f = self.kernel_space->0;
                    assert(is_root(before, f.number as int));
                    assert(f.number != r);
                    assert(is_root(middle, f.number as int));
                    assert forall|w: u64| #[trigger] self.kernel_walk(w) == old(self).kernel_walk(
                        w,
                    ) by {
                        assert(walk(middle, f.number as int, w) == walk(before, f.number as int, w));
                        assert(walk(after, f.number as int, w) == walk(middle, f.number as int, w));
                    }
                }
            }
            self.kept_stacks_stay(*old(self));
            assert(self.spaces_ok()) by {
                assert forall|i: int| 0 <= i < self.domains@.len() implies (
                #[trigger] self.domains@[i].space matches Some(f) ==> is_root(
                    after,
                    f.number as int,
                ) && upper_clear(after, f.number as int) && self.kernel_space != Some(f)) by {
                    if i != d {
                        assert(old(self).domains@[i].space == self.domains@[i].space);
                        if self.domains@[i].space is Some {
                            let f = self.domains@[i].space->0;
                            assert(is_root(before, f.number as int));
                            assert(f.number != r) by {
                                assert(old(self).domains@[d as int].space == Some(root));
                                if i < d {
                                    assert(old(self).domains@[i].space != old(
                                        self,
                                    ).domains@[d as int].space);
                                } else {
                                    assert(old(self).domains@[d as int].space != old(
                                        self,
                                    ).domains@[i].space);
                                }
                            }
                            assert(is_root(middle, f.number as int));
                            assert(upper_clear(before, f.number as int));
                            assert forall|w: u64|
                                slot_of(w, 3) >= SLOT_HHDM && !is_kernel_slot(
                                    slot_of(w, 3),
                                ) implies (#[trigger] walk(
                                after,
                                f.number as int,
                                w,
                            )) is None by {
                                assert(walk(middle, f.number as int, w) == walk(
                                    before,
                                    f.number as int,
                                    w,
                                ));
                            }
                        }
                    }
                }
                assert forall|i: int, j: int| 0 <= i < j < self.domains@.len() implies ((
                #[trigger] self.domains@[i].space) is Some ==> self.domains@[i].space
                    != #[trigger] self.domains@[j].space) by {
                    assert(i != d ==> old(self).domains@[i].space == self.domains@[i].space);
                    assert(j != d ==> old(self).domains@[j].space == self.domains@[j].space);
                }
                if self.kernel_space is Some {
                    let f = self.kernel_space->0;
                    assert(is_root(before, f.number as int));
                    assert(f.number != r);
                    assert(is_root(middle, f.number as int));
                }
            }
            assert(self@.backing().stands()) by {
                let was = old(self)@.backing();
                let now = self@.backing();
                assert forall|e: int, v: u64| #[trigger] now.has_page(e, v) implies was.has_page(
                    e,
                    v,
                ) && now.pages[(now.root(e), v)] == was.pages[(was.root(e), v)] by {
                    assert(e != d);
                }
                assert forall|e: int, f: int|
                    0 <= e < now.domains.len() && now.domains[e].space is Some
                        && #[trigger] was.holds(e, f) implies now.holds(e, f) by {
                    assert(e != d);
                    assert(self@.uses[f] == old(self)@.uses[f]);
                }
                now.stands_on(was);
            }
        }
        counts
    }
}

/// The page of `v` is one of those the kernel maps for itself.
pub open spec fn is_dynamic(v: u64) -> bool {
    &&& slot_of(v, 3) == SLOT_DYNAMIC
    &&& v % 0x1000 == 0
    &&& is_canonical(v)
}

impl Machine {
    /// The walk for `v` in the kernel's own space.
    pub open spec fn kernel_walk(self, v: u64) -> Option<(nat, u64)> {
        walk(self.frames, (self.kernel_space->0).number as int, v)
    }

    /// The kernel's own space translates as in another machine.
    pub open spec fn kernel_as(self, before: Machine) -> bool {
        before.kernel_space is Some ==> forall|v: u64| #[trigger]
            self.kernel_walk(v) == before.kernel_walk(v)
    }

    /// The kernel's own space translates as before through a step that changes no
    /// table.
    pub proof fn kernel_goes_on(self, middle: Machine, first: Machine)
        requires
            middle.kernel_as(first),
            self.same_tables(middle),
            self.kernel_space == middle.kernel_space,
        ensures
            self.kernel_as(first),
    {
        assert forall|v: u64| first.kernel_space is Some implies #[trigger] self.kernel_walk(v)
            == first.kernel_walk(v) by {
            assert(middle.kernel_walk(v) == first.kernel_walk(v));
        }
    }

    /// No entry on the way of a page of domain `d` takes anything away that the
    /// entry at its end permits.
    pub open spec fn pages_are_open(self, d: int) -> bool {
        forall|v: u64|
            (#[trigger] self@.translated(d, v)) is Some ==> way_is_open(
                0,
                self.frames.contents(),
                self@.root_of(d),
                3,
                v,
                self@.translated(d, v)->0 & USER != 0,
            )
    }

    /// The pages of every domain are open.
    pub proof fn every_page_is_open(self, d: int)
        requires
            self.wf(),
            0 <= d < MAX_DOMAINS,
        ensures
            self.pages_are_open(d),
    {
        assert forall|v: u64| (#[trigger] self@.translated(d, v)) is Some implies way_is_open(
            0,
            self.frames.contents(),
            self@.root_of(d),
            3,
            v,
            self@.translated(d, v)->0 & USER != 0,
        ) by {
            pages_permit_what_they_say(self, d, v);
        }
    }

    /// A slot of a well-formed machine is as its mark says, and may be worked on.
    pub proof fn opens_for(self, slot: int)
        requires
            self.wf(),
            0 <= slot < MAX_THREADS,
        ensures
            self.wf_but(slot),
            self@.kernel_space matches Some(f) ==> stack_ok(
                self.frames.contents(),
                f.number as int,
                slot,
                self@.kstacks[slot],
            ),
    {
        reveal(Machine::wf_but);
        reveal(stacks_ok);
    }

    /// Once the slot that was worked on is as its mark says, the machine is well
    /// formed.
    pub proof fn closes_for(self, slot: int)
        requires
            self.wf_but(slot),
            0 <= slot < MAX_THREADS,
            self@.kernel_space matches Some(f) ==> stack_ok(
                self.frames.contents(),
                f.number as int,
                slot,
                self@.kstacks[slot],
            ),
        ensures
            self.wf(),
    {
        reveal(Machine::wf_but);
        reveal(stacks_ok);
    }

    /// Every frame has an address, a use and contents.
    pub proof fn frames_are_addressable(self, but: int)
        requires
            self.wf_but(but),
        ensures
            self@.uses.len() <= PHYSICAL_FRAMES,
            self@.uses.len() == self.frames.frames(),
    {
        reveal(Machine::wf_but);
    }

    /// A domain without an address space owns no table.
    pub proof fn no_space_no_table(self, d: int)
        requires
            self.wf(),
            0 <= d < MAX_DOMAINS,
            self@.domains[d].space is None,
        ensures
            owns_no_table(self@.uses, d),
    {
        reveal(Machine::wf_but);
        assert forall|i: int| 0 <= i < self@.uses.len() implies #[trigger] self@.uses[i]
            != FrameUse::Table(Owner::Domain(d as u16)) by {
            assert(self.table_is_owned(self.frames.uses@[i], i));
        }
    }

    /// No two domains share an address space.
    pub proof fn spaces_differ(self, d: int)
        requires
            self.wf(),
            0 <= d < MAX_DOMAINS,
        ensures
            forall|e: int|
                0 <= e < MAX_DOMAINS && e != d && (#[trigger] self@.domains[e]).space is Some
                    ==> self@.domains[e].space != self@.domains[d].space,
    {
        reveal(Machine::wf_but);
        assert forall|e: int|
            0 <= e < MAX_DOMAINS && e != d && (#[trigger] self@.domains[e]).space is Some implies
            self@.domains[e].space != self@.domains[d].space by {
            if e < d {
                assert(self.domains@[e].space != self.domains@[d].space);
            } else if self@.domains[d].space is Some {
                assert(self.domains@[d].space != self.domains@[e].space);
            }
        }
    }

    /// The kernel's space is one of those the frames hold.
    pub proof fn kernel_is_root(self, but: int)
        requires
            self.wf_but(but),
            self@.kernel_space is Some,
        ensures
            is_root(self.frames, (self.kernel_space->0).number as int),
    {
        reveal(Machine::wf_but);
    }

    /// What a change to one page of the kernel's own leaves as it was.
    proof fn kernel_page_changed(self, before: Machine, v: u64, but: int)
        requires
            before.wf_but(but),
            is_off_stacks(v, but),
            before@.kernel_space is Some,
            is_dynamic(v),
            self.frames.wf(),
            translations_kept(before.frames, self.frames, |w: u64| same_page(w, v, 0)),
            forall|r: int|
                is_root(self.frames, r) ==> #[trigger] is_root(before.frames, r),
            self@ == (MachineModel { uses: self@.uses, pages: self@.pages, ..before@ }),
            self.logs == before.logs,
            interior_kept(before.frames, self.frames),
            rooted(self.frames),
            homes_kept(
                before.frames,
                self.frames,
                (before.kernel_space->0).number as int,
                v,
            ),
            forall|i: int|
                0 <= i < before.frames.frames() && (#[trigger] self.frames.uses@[i]) is Table
                    ==> self.frames.uses@[i] == before.frames.uses@[i] || (before.frames.uses@[i]
                    == FrameUse::Free && self.frames.uses@[i] == FrameUse::Table(Owner::Kernel)),
forall|i: int|
                0 <= i < before.frames.frames() && ((#[trigger] before.frames.uses@[i]) matches FrameUse::Held(
                    o,
                ) && o is Domain) ==> self.frames.uses@[i] == before.frames.uses@[i],
        ensures
            self.wf_but(but),
            self@ == (MachineModel { uses: self@.uses, ..before@ }),
    {
        let changed = |w: u64| same_page(w, v, 0);
        assert(translations_kept(before.frames, self.frames, changed));
        assert forall|w: u64| #[trigger] changed(w) implies slot_of(w, 3) == SLOT_DYNAMIC by {
            slots_of_page(w, v);
        }
        self.kernel_range_changed(before, changed, v, but);
    }

    /// What a change to some pages of the kernel's own leaves as it was.
    proof fn kernel_range_changed(
        self,
        before: Machine,
        changed: spec_fn(u64) -> bool,
        v: u64,
        but: int,
    )
        requires
            before.wf_but(but),
            forall|slot: int, page: int|
                0 <= slot < MAX_THREADS && slot != but && -1 <= page < KSTACK_PAGES ==> !changed(
                    #[trigger] stack_page(slot, page),
                ),
            forall|w: u64| #[trigger] changed(w) ==> slot_of(w, 3) == SLOT_DYNAMIC,
            before@.kernel_space is Some,
            self.frames.wf(),
            translations_kept(before.frames, self.frames, changed),
            forall|r: int|
                is_root(self.frames, r) ==> #[trigger] is_root(before.frames, r),
            self@ == (MachineModel { uses: self@.uses, pages: self@.pages, ..before@ }),
            self.logs == before.logs,
            interior_kept(before.frames, self.frames),
            rooted(self.frames),
            homes_kept(
                before.frames,
                self.frames,
                (before.kernel_space->0).number as int,
                v,
            ),
            forall|i: int|
                0 <= i < before.frames.frames() && (#[trigger] self.frames.uses@[i]) is Table
                    ==> self.frames.uses@[i] == before.frames.uses@[i] || (before.frames.uses@[i]
                    == FrameUse::Free && self.frames.uses@[i] == FrameUse::Table(Owner::Kernel)),
forall|i: int|
                0 <= i < before.frames.frames() && ((#[trigger] before.frames.uses@[i]) matches FrameUse::Held(
                    o,
                ) && o is Domain) ==> self.frames.uses@[i] == before.frames.uses@[i],
        ensures
            self.wf_but(but),
            self@ == (MachineModel { uses: self@.uses, ..before@ }),
    {
        reveal(Machine::wf_but);
        let q = (before.kernel_space->0).number as int;
        assert(self.kstacks@ == self@.kstacks && before.kstacks@ == before@.kstacks);
        assert(self.kernel_space == self@.kernel_space);
        assert forall|slot: int, page: int|
            0 <= slot < MAX_THREADS && slot != but && -1 <= page < KSTACK_PAGES implies lookup(
            0,
            self.frames.memory@,
            q,
            3,
            #[trigger] stack_page(slot, page),
        ) == lookup(0, before.frames.memory@, q, 3, stack_page(slot, page)) by {
            let w = stack_page(slot, page);
            assert(!changed(w));
            assert(walk(self.frames, q, w) == walk(before.frames, q, w));
        }
        stacks_stay(
            before.frames.memory@,
            self.frames.memory@,
            before.kernel_space,
            before.kstacks@,
            but,
        );
        assert forall|k: (int, u64)| #[trigger]
            self@.pages.contains_key(k) == before@.pages.contains_key(k) && (
            self@.pages.contains_key(k) ==> self@.pages[k] == before@.pages[k]) by {
            pages_are_walks(before.frames, k.0, k.1);
            pages_are_walks(self.frames, k.0, k.1);
            if k.1 < USER_END {
                low_slot(k.1);
                assert(!changed(k.1));
                if is_root(before.frames, k.0) {
                    assert(walk(self.frames, k.0, k.1) == walk(before.frames, k.0, k.1));
                }
            }
        }
        assert(self@.pages =~= before@.pages);
        assert(self@ =~= (MachineModel { uses: self@.uses, ..before@ }));
        assert(self@.backing().stands()) by {
            let was = before@.backing();
            assert forall|e: int, f: int|
                0 <= e < was.domains.len() && was.domains[e].space is Some && #[trigger] was.holds(
                    e,
                    f,
                ) implies self@.backing().holds(e, f) by {
                assert(before.frames.uses@[f] is Held);
            }
            self@.backing().stands_on(was);
        }
        assert(self.domains@ == self@.domains);
        assert(before.domains@ == before@.domains);
        assert(self.spaces_ok()) by {
            self.grown_tables_stay(
                before,
                Owner::Kernel,
                (before.kernel_space->0).number as int,
                v,
            );
            assert forall|i: int| 0 <= i < self.domains@.len() implies (
            #[trigger] self.domains@[i].space matches Some(f) ==> is_root(
                self.frames,
                f.number as int,
            ) && upper_clear(self.frames, f.number as int) && self.kernel_space != Some(f)) by {
                if self.domains@[i].space is Some {
                    assert(before.domains@[i].space == self.domains@[i].space);
                    let q = (self.domains@[i].space->0).number as int;
                    assert(is_root(before.frames, q) && upper_clear(before.frames, q));
                    assert forall|w: u64|
                        slot_of(w, 3) >= SLOT_HHDM && !is_kernel_slot(slot_of(w, 3)) implies (
                    #[trigger] walk(self.frames, q, w)) is None by {
                        assert(!changed(w));
                        assert(walk(self.frames, q, w) == walk(before.frames, q, w));
                    }
                }
            }
            assert forall|i: int, j: int| 0 <= i < j < self.domains@.len() implies ((
            #[trigger] self.domains@[i].space) is Some ==> self.domains@[i].space
                != #[trigger] self.domains@[j].space) by {
                assert(before.domains@[i].space == self.domains@[i].space);
                assert(before.domains@[j].space == self.domains@[j].space);
            }
        }
    }

    /// Takes a frame for the kernel and maps it at a page of a kernel stack slot.
    pub fn map_stack_page(&mut self, slot: usize, page: u64) -> (result: Result<Frame, MapError>)
        requires
            old(self).wf_but(slot as int),
            old(self)@.kernel_space is Some,
            slot < MAX_THREADS,
            page < KSTACK_PAGES,
        ensures
            final(self).wf_but(slot as int),
            frames_took(old(self)@.uses, final(self)@.uses, Owner::Kernel),
            final(self)@ == (MachineModel { uses: final(self)@.uses, ..old(self)@ }),
            translations_kept(
                old(self).frames,
                final(self).frames,
                |w: u64| result is Ok && same_page(w, stack_page(slot as int, page as int), 0),
            ),
            match result {
                Ok(frame) => {
                    &&& frame.number < old(self)@.uses.len()
                    &&& old(self)@.uses[frame.number as int] == FrameUse::Free
                    &&& final(self)@.uses[frame.number as int] == FrameUse::Held(Owner::Kernel)
                    &&& data_kept(old(self).frames, final(self).frames)
                    &&& old(self).kernel_walk(stack_page(slot as int, page as int)) is None
                    &&& final(self).frames.free_frames() >= old(self).frames.free_frames() - 4
                    &&& forall|w: u64|
                        same_page(w, stack_page(slot as int, page as int), 0) ==> #[trigger] final(self).kernel_walk(w) == Some(
                            (0nat, (frame.address() as u64) | leaf_bits(kernel_data())),
                        )
                },
                Err(e) => match e {
                    MapError::OutOfMemory => old(self).frames.free_frames() <= 3,
                    MapError::AlreadyMapped => old(self).kernel_walk(stack_page(slot as int, page as int)) matches Some((l, _))
                        && l == 0,
                    MapError::LargePageInTheWay => old(self).kernel_walk(stack_page(slot as int, page as int)) matches Some((l, _))
                        && l != 0,
                    _ => false,
                },
            },
    {
        proof {
            reveal(Machine::wf_but);
            stack_pages_are_dynamic(slot as int, page as int);
            stack_page_is_off_others(slot as int, page as int);
        }
        let v: u64 = kstack_slot_base(slot) + 0x1000 + page * 0x1000;
        let ghost first = *self;
        let root = match self.kernel_space {
            Some(root) => root,
            None => {
                return Err(MapError::OutOfMemory);
            },
        };
        let frame = match self.frames.acquire(Owner::Kernel) {
            Err(_) => {
                return Err(MapError::OutOfMemory);
            },
            Ok(frame) => frame,
        };
        let ghost second = *self;
        proof {
            let n = frame.number as int;
            count_use_changes(
                first.frames.uses@,
                n,
                FrameUse::Free,
                FrameUse::Held(Owner::Kernel),
            );
            assert forall|r: int, w: u64| is_root(first.frames, r) implies #[trigger] walk(
                second.frames,
                r,
                w,
            ) == walk(first.frames, r, w) by {
                root_prefix(w);
                unlabelled_pages_are_ignored(
                    first.frames.memory@,
                    first.frames.labels@,
                    r,
                    3,
                    w,
                    second.frames.memory@,
                );
            }
            assert(is_root(first.frames, root.number as int));
            assert(first.kernel_walk(v) == second.kernel_walk(v));
            acquiring_keeps_tables(first.frames, second.frames);
        }
        let space = AddressSpace { root };
        match space.map(v, frame, Rights::kernel_rw(), &mut self.frames, Owner::Kernel) {
            Ok(()) => {
                proof {
                    assert(data_kept(first.frames, second.frames));
                    data_kept_on(first.frames, second.frames, self.frames);
                    assert(self.frames.contents()[frame.number as int]
                        == second.frames.contents()[frame.number as int]);
                    assert forall|r: int, w: u64|
                        is_root(first.frames, r) && !same_page(w, v, 0) implies #[trigger] walk(
                        self.frames,
                        r,
                        w,
                    ) == walk(first.frames, r, w) by {
                        assert(is_root(second.frames, r));
                        assert(walk(self.frames, r, w) == walk(second.frames, r, w));
                    }
                    assert forall|r: int| is_root(self.frames, r) implies #[trigger] is_root(
                        first.frames,
                        r,
                    ) by {
                        assert(is_root(second.frames, r));
                    }
                    assert(self@ =~= (MachineModel {
                        uses: self@.uses,
                        pages: self@.pages,
                        ..first@
                    }));
                    interior_kept_on(first.frames, second.frames, self.frames);
                    homes_kept_on(
                        first.frames,
                        second.frames,
                        self.frames,
                        root.number as int,
                        v,
                    );
                    self.kernel_page_changed(first, v, slot as int);
                    assert forall|w: u64| same_page(w, v, 0) implies #[trigger] self.kernel_walk(w)
                        == Some((0nat, (frame.address() as u64) | leaf_bits(kernel_data()))) by {
                        assert(space.translation(self.frames, w) == Some(
                            (0nat, (frame.address() as u64) | leaf_bits(kernel_data())),
                        ));
                    }
                }
                Ok(frame)
            },
            Err(error) => {
                let ghost third = *self;
                proof {
                    missing_is_bounded(space, second.frames, v);
                }
                self.frames.give_back_run(frame, 1, Owner::Kernel, true);
                proof {
                    uses_translate_nothing(third.frames, self.frames);
                    assert forall|r: int, w: u64| is_root(first.frames, r) implies #[trigger] walk(
                        self.frames,
                        r,
                        w,
                    ) == walk(first.frames, r, w) by {
                        assert(is_root(second.frames, r));
                        assert(walk(third.frames, r, w) == walk(second.frames, r, w));
                    }
                    assert forall|r: int| is_root(self.frames, r) implies #[trigger] is_root(
                        first.frames,
                        r,
                    ) by {
                        assert(is_root(third.frames, r));
                        assert(is_root(second.frames, r));
                    }
                    assert(self@ =~= (MachineModel {
                        uses: self@.uses,
                        pages: self@.pages,
                        ..first@
                    }));
                    interior_kept_on(first.frames, second.frames, third.frames);
                    homes_kept_on(
                        first.frames,
                        second.frames,
                        third.frames,
                        root.number as int,
                        v,
                    );
                    uses_keep_tables(third.frames, self.frames, first.frames, root.number as int, v);
                    self.kernel_page_changed(first, v, slot as int);
                }
                Err(error)
            },
        }
    }

    /// Maps a frame that is no memory at a page of the kernel's own.
    pub fn map_kernel_frame(&mut self, v: u64, frame: Frame) -> (result: Result<(), MapError>)
        requires
            old(self).wf(),
            old(self)@.kernel_space is Some,
            is_dynamic(v),
            is_off_stacks(v, -1),
            frame.number < PHYSICAL_FRAMES,
        ensures
            final(self).wf(),
            tables_grew(old(self)@.uses, final(self)@.uses, Owner::Kernel),
            final(self)@ == (MachineModel { uses: final(self)@.uses, ..old(self)@ }),
            translations_kept(
                old(self).frames,
                final(self).frames,
                |w: u64| result is Ok && same_page(w, v, 0),
            ),
            match result {
                Ok(()) => {
                    &&& old(self).kernel_walk(v) is None
                    &&& final(self).frames.free_frames() + 3 >= old(self).frames.free_frames()
                    &&& forall|w: u64|
                        same_page(w, v, 0) ==> #[trigger] final(self).kernel_walk(w) == Some(
                            (0nat, (frame.address() as u64) | leaf_bits(kernel_registers())),
                        )
                },
                Err(e) => match e {
                    MapError::OutOfMemory => old(self).frames.free_frames() < 3,
                    MapError::AlreadyMapped => old(self).kernel_walk(v) matches Some((l, _))
                        && l == 0,
                    MapError::LargePageInTheWay => old(self).kernel_walk(v) matches Some((l, _))
                        && l != 0,
                    _ => false,
                },
            },
    {
        proof {
            reveal(Machine::wf_but);
        }
        let ghost first = *self;
        let root = match self.kernel_space {
            Some(root) => root,
            None => {
                return Err(MapError::OutOfMemory);
            },
        };
        assert(is_root(self.frames, root.number as int));
        let space = AddressSpace { root };
        let rights = Rights {
            read: true,
            write: true,
            execute: false,
            user: false,
            uncacheable: true,
        };
        let result = space.map(v, frame, rights, &mut self.frames, Owner::Kernel);
        proof {
            missing_is_bounded(space, first.frames, v);
            assert(self@ =~= (MachineModel { uses: self@.uses, pages: self@.pages, ..first@ }));
            assert forall|r: int, w: u64|
                is_root(first.frames, r) && !same_page(w, v, 0) implies #[trigger] walk(
                self.frames,
                r,
                w,
            ) == walk(first.frames, r, w) by {}
            self.kernel_page_changed(first, v, -1);
            if result is Ok {
                assert forall|w: u64| same_page(w, v, 0) implies #[trigger] self.kernel_walk(w)
                    == Some((0nat, (frame.address() as u64) | leaf_bits(kernel_registers()))) by {
                    assert(space.translation(self.frames, w) == Some(
                        (0nat, (frame.address() as u64) | leaf_bits(kernel_registers())),
                    ));
                }
            }
        }
        result
    }

    /// Maps device memory at `phys` as one large page of the kernel's own.
    pub fn map_kernel_large(&mut self, v: u64, phys: u64) -> (result: Result<(), MapError>)
        requires
            old(self).wf(),
            old(self)@.kernel_space is Some,
            v % LARGE == 0,
            v >= UPPER_HALF,
            v <= 0xFFFF_FFFF_FFE0_0000,
            phys <= 0xFFFF_FFFF_FFE0_0000,
            forall|w: u64| #[trigger] same_page(w, v, 1) ==> slot_of(w, 3) == SLOT_DYNAMIC,
            forall|slot: int, page: int|
                0 <= slot < MAX_THREADS && -1 <= page < KSTACK_PAGES ==> !same_page(
                    #[trigger] stack_page(slot, page),
                    v,
                    1,
                ),
        ensures
            final(self).wf(),
            final(self)@ == (MachineModel { uses: final(self)@.uses, ..old(self)@ }),
            translations_kept(
                old(self).frames,
                final(self).frames,
                |w: u64| result is Ok && same_page(w, v, 1),
            ),
            match result {
                Ok(()) => {
                    &&& phys % LARGE == 0
                    &&& forall|w: u64|
                        same_page(w, v, 1) ==> #[trigger] final(self).kernel_walk(w) == Some(
                            (1nat, large_bits(phys, kernel_registers())),
                        )
                },
                Err(e) => {
                    ||| phys % LARGE != 0 && e == MapError::BadAddress
                    ||| (AddressSpace { root: old(self)@.kernel_space->0 }).large_page_refused(
                        final(self).frames,
                        v,
                        e,
                    )
                },
            },
    {
        proof {
            reveal(Machine::wf_but);
        }
        let ghost first = *self;
        let root = match self.kernel_space {
            Some(root) => root,
            None => {
                return Err(MapError::OutOfMemory);
            },
        };
        assert(is_root(self.frames, root.number as int));
        let space = AddressSpace { root };
        let rights = Rights {
            read: true,
            write: true,
            execute: false,
            user: false,
            uncacheable: true,
        };
        let result = space.map_large_range(v, phys, 1, rights, &mut self.frames);
        proof {
            assert(large_page_at(v, 0) == v && large_page_at(phys, 0) == phys);
            let changed = |w: u64| result is Ok && same_page(w, v, 1);
            if phys % LARGE == 0 {
                let done = choose|done: int| #[trigger]
                    space.large_pages_mapped(
                        first.frames,
                        self.frames,
                        v,
                        phys,
                        done,
                        rights,
                    ) && match result {
                        Ok(()) => done == 1,
                        Err(e) => 0 <= done < 1 && space.large_page_refused(
                            self.frames,
                            large_page_at(v, done),
                            e,
                        ),
                    };
                assert forall|r: int, w: u64|
                    is_root(first.frames, r) && !changed(w) implies #[trigger] walk(
                    self.frames,
                    r,
                    w,
                ) == walk(first.frames, r, w) by {
                    if in_large_range(w, v, done) {
                        let i = choose|i: int|
                            0 <= i < done && #[trigger] same_page(w, large_page_at(v, i), 1);
                        assert(i == 0);
                    }
                }
                if result is Ok {
                    assert forall|w: u64| same_page(w, v, 1) implies #[trigger] self.kernel_walk(w)
                        == Some((1nat, large_bits(phys, kernel_registers()))) by {
                        assert(same_page(w, large_page_at(v, 0), 1));
                        assert(space.translation(self.frames, w) == Some(
                            (1nat, large_bits(phys, kernel_registers())),
                        ));
                    }
                }
            }
            assert(self@ =~= (MachineModel { uses: self@.uses, pages: self@.pages, ..first@ }));
            assert(translations_kept(first.frames, self.frames, changed));
            assert(homes_kept(first.frames, self.frames, root.number as int, v)) by {
                assert forall|t: int|
                    #![trigger self.frames.labels_spec()[t]]
                    0 <= t < first.frames.frames() implies home_kept(
                    first.frames,
                    self.frames,
                    root.number as int,
                    v,
                    t,
                ) by {}
            }
            self.kernel_range_changed(first, changed, v, -1);
        }
        result
    }

    /// Unmaps a page of a kernel stack slot and puts its frame in quarantine.
    pub fn unmap_stack_page(&mut self, slot: usize, page: u64) -> (found: bool)
        requires
            old(self).wf_but(slot as int),
            old(self)@.kernel_space is Some,
            slot < MAX_THREADS,
            page < KSTACK_PAGES,
        ensures
            final(self).wf_but(slot as int),
            final(self)@ == (MachineModel { uses: final(self)@.uses, ..old(self)@ }),
            translations_kept(
                old(self).frames,
                final(self).frames,
                |w: u64| found && same_page(w, stack_page(slot as int, page as int), 0),
            ),
            found == (old(self).kernel_walk(stack_page(slot as int, page as int)) matches Some((l, _)) && l == 0),
            found ==> forall|w: u64|
                same_page(w, stack_page(slot as int, page as int), 0) ==> #[trigger] final(self).kernel_walk(w) is None,
            final(self)@.uses == if found {
                retired_use(
                    old(self)@.uses,
                    Frame { number: target((old(self).kernel_walk(stack_page(slot as int, page as int))->0).1) / 0x1000 },
                    Owner::Kernel,
                )
            } else {
                old(self)@.uses
            },
    {
        proof {
            reveal(Machine::wf_but);
            stack_pages_are_dynamic(slot as int, page as int);
            stack_page_is_off_others(slot as int, page as int);
        }
        let v: u64 = kstack_slot_base(slot) + 0x1000 + page * 0x1000;
        let ghost first = *self;
        let root = match self.kernel_space {
            Some(root) => root,
            None => {
                return false;
            },
        };
        assert(is_root(self.frames, root.number as int));
        let space = AddressSpace { root };
        match space.unmap(v, &mut self.frames) {
            None => {
                proof {
                    assert(self@ =~= (MachineModel { uses: self@.uses, ..first@ }));
                }
                false
            },
            Some(frame) => {
                let ghost second = *self;
                self.frames.retire(frame, Owner::Kernel);
                proof {
                    uses_translate_nothing(second.frames, self.frames);
                    uses_keep_tables(
                        second.frames,
                        self.frames,
                        first.frames,
                        root.number as int,
                        v,
                    );
                    assert forall|r: int, w: u64|
                        is_root(first.frames, r) && !same_page(w, v, 0) implies #[trigger] walk(
                        self.frames,
                        r,
                        w,
                    ) == walk(first.frames, r, w) by {
                        assert(walk(second.frames, r, w) == walk(first.frames, r, w));
                    }
                    assert forall|r: int| is_root(self.frames, r) implies #[trigger] is_root(
                        first.frames,
                        r,
                    ) by {
                        assert(is_root(second.frames, r));
                    }
                    assert(self@ =~= (MachineModel {
                        uses: self@.uses,
                        pages: self@.pages,
                        ..first@
                    }));
                    self.kernel_page_changed(first, v, slot as int);
                    assert forall|w: u64| same_page(w, v, 0) implies #[trigger] self.kernel_walk(
                        w,
                    ) is None by {
                        assert(space.translation(second.frames, w) is None);
                    }
                }
                true
            },
        }
    }
}

/// What grew before the uses of frames changed has grown after.
proof fn uses_keep_tables(
    before: FrameAllocator,
    after: FrameAllocator,
    first: FrameAllocator,
    home: int,
    v: u64,
)
    requires
        interior_kept(first, before),
        homes_kept(first, before, home, v),
        rooted(before),
        after.memory == before.memory,
        after.labels == before.labels,
        after.parents == before.parents,
        after.homes == before.homes,
    ensures
        interior_kept(first, after),
        homes_kept(first, after, home, v),
        rooted(after),
{
    assert forall|t: int| 0 <= t < after.frames() && #[trigger] is_low_table(after, t) implies {
        let (x, k) = after.parents@[t];
        0 <= x < after.frames() && 0 <= k < 512 && points_to(after, x, k, t)
    } by {
        let (x, k) = after.parents@[t];
        assert(is_low_table(before, t));
        assert(points_to(before, x, k, t));
    }
    assert forall|t: int|
        #![trigger after.labels_spec()[t]]
        0 <= t < first.frames() implies home_kept(first, after, home, v, t) by {
        let label = before.labels_spec()[t];
        assert(home_kept(first, before, home, v, t));
        assert(is_low_table(before, t) == is_low_table(after, t));
    }
}

/// Emptying frames that are no tables keeps the tables.
proof fn acquiring_keeps_tables(before: FrameAllocator, after: FrameAllocator)
    requires
        before.wf(),
        after.frames() == before.frames(),
        after.labels == before.labels,
        after.parents == before.parents,
        after.homes == before.homes,
        forall|i: int|
            0 <= i < before.frames() && (#[trigger] before.labels@[i]) is Some
                ==> after.contents()[i] == before.contents()[i],
    ensures
        interior_kept(before, after),
        rooted(before) ==> rooted(after),
        forall|home: int, v: u64| #[trigger] homes_kept(before, after, home, v),
{
    if rooted(before) {
        assert forall|t: int| 0 <= t < after.frames() && #[trigger] is_low_table(after, t) implies {
            let (x, k) = after.parents@[t];
            0 <= x < after.frames() && 0 <= k < 512 && points_to(after, x, k, t)
        } by {
            let (x, k) = after.parents@[t];
            assert(is_low_table(before, t));
            assert(points_to(before, x, k, t));
            assert(before.labels@[x] is Some);
            assert(after.contents()[x] == before.contents()[x]);
        }
    }
}

/// Rights of device registers that the kernel maps for itself.
pub open spec fn kernel_registers() -> Rights {
    Rights { read: true, write: true, execute: false, user: false, uncacheable: true }
}

/// Rights of ordinary kernel data.
pub open spec fn kernel_data() -> Rights {
    Rights { read: true, write: true, execute: false, user: false, uncacheable: false }
}

/// The translations without those of one space.
pub open spec fn without_space(pages: Map<(int, u64), (nat, u64)>, root: int) -> Map<
    (int, u64),
    (nat, u64),
> {
    Map::new(
        |k: (int, u64)| pages.contains_key(k) && k.0 != root,
        |k: (int, u64)| pages[k],
    )
}

/// Frames either keep their use, or were free and are held by `owner` or serve
/// it as tables.
pub open spec fn frames_took(before: Seq<FrameUse>, after: Seq<FrameUse>, owner: Owner) -> bool {
    &&& after.len() == before.len()
    &&& forall|i: int|
        0 <= i < before.len() ==> {
            ||| #[trigger] after[i] == before[i]
            ||| before[i] == FrameUse::Free && (after[i] == FrameUse::Table(owner) || after[i]
                == FrameUse::Held(owner))
        }
}

/// Frames either keep their use, or were held by `owner` or served as tables and
/// are now in quarantine.
pub open spec fn space_retired(before: Seq<FrameUse>, after: Seq<FrameUse>, owner: Owner) -> bool {
    &&& after.len() == before.len()
    &&& forall|i: int|
        0 <= i < before.len() ==> {
            ||| #[trigger] after[i] == before[i]
            ||| {
                &&& after[i] == FrameUse::Retired(owner)
                &&& before[i] == FrameUse::Held(owner) || before[i] is Table
            }
        }
}

/// What a domain translates, the entry at the end of the walk decides: no entry
/// on the way takes anything away that it permits.
pub proof fn pages_permit_what_they_say(machine: Machine, d: int, v: u64)
    requires
        machine.wf(),
        0 <= d < MAX_DOMAINS,
        machine@.translated(d, v) is Some,
    ensures
        way_is_open(
            0,
            machine.frames.contents(),
            machine@.root_of(d),
            3,
            v,
            machine@.translated(d, v)->0 & USER != 0,
        ),
{
    reveal(Machine::wf_but);
    let root = machine@.domains[d].space->0;
    assert(machine.domains@[d].space == Some(root));
    pages_are_walks(machine.frames, root.number as int, v);
    leaf_alone_decides(machine.frames, AddressSpace { root }, v);
}

/// What the kernel maps for itself is seen from every address space, whether it
/// was mapped before or after the space was made.
pub proof fn kernel_mappings_are_seen(machine: Machine, d: int, v: u64)
    requires
        machine.wf(),
        0 <= d < MAX_DOMAINS,
        machine@.kernel_space is Some,
        machine@.domains[d].space is Some,
        is_kernel_slot(slot_of(v, 3)),
    ensures
        walk(machine.frames, machine@.root_of(d), v) == machine.kernel_walk(v),
{
    reveal(Machine::wf_but);
    let f = (machine.kernel_space->0).number as int;
    let g = machine@.domains[d].space->0;
    assert(machine.domains@[d].space == Some(g));
    assert(shares_kernel(machine.frames, g.number as int, f));
    assert(shares_slot(machine.frames, g.number as int, f, slot_of(v, 3)));
    shared_slots_translate_alike(
        machine.frames,
        AddressSpace { root: g },
        AddressSpace { root: machine.kernel_space->0 },
        v,
    );
}

/// No frame is a table of domain `d`.
pub open spec fn owns_no_table(uses: Seq<FrameUse>, d: int) -> bool {
    forall|i: int|
        0 <= i < uses.len() ==> #[trigger] uses[i] != FrameUse::Table(Owner::Domain(d as u16))
}

/// The frame that an entry names is in quarantine if `owner` held it.
pub open spec fn page_given_back(
    before: Seq<FrameUse>,
    after: Seq<FrameUse>,
    e: u64,
    owner: Owner,
) -> bool {
    let f = target(e) as int / 0x1000;
    f < before.len() && before[f] == FrameUse::Held(owner) ==> after[f] == FrameUse::Retired(owner)
}

/// Every frame that domain `d` held and mapped is in quarantine.
pub open spec fn pages_given_back(m: MachineModel, after: Seq<FrameUse>, d: int) -> bool {
    forall|v: u64| #[trigger]
        m.pages.contains_key((m.root_of(d), v)) ==> page_given_back(
            m.uses,
            after,
            m.pages[(m.root_of(d), v)].1,
            Owner::Domain(d as u16),
        )
}

/// No page of the lower half holds an address of the upper.
proof fn upper_is_elsewhere(w: u64, v: u64)
    requires
        v < USER_END,
        slot_of(w, 3) >= SLOT_HHDM,
    ensures
        !same_page(w, v, 0),
{
    low_slot(v);
    if same_page(w, v, 0) {
        slots_of_page(w, v);
    }
}

/// Addresses of the lower half select a slot of the lower half.
proof fn low_slot(v: u64)
    requires
        v < USER_END,
    ensures
        0 <= slot_of(v, 3) < 256,
        !is_kernel_slot(slot_of(v, 3)),
{
    let x = v as int;
    assert(x / 0x80_0000_0000 < 256);
    assert((x / 0x80_0000_0000) % 512 == x / 0x80_0000_0000);
}

/// No more than three tables are ever missing.
proof fn missing_is_bounded(space: AddressSpace, frames: FrameAllocator, v: u64)
    ensures
        space.missing(frames, 0, v) <= 3,
{
    descend_stops_in_time(frames.contents(), space.root.number as int, 3, v);
}

proof fn descend_stops_in_time(mem: Seq<Page>, t: int, level: nat, v: u64)
    requires
        level <= 3,
    ensures
        descend(0, mem, t, level, 0, v) matches Step::Missing(l) ==> l <= level,
    decreases level,
{
    if level > 0 {
        descend_stops_in_time(
            mem,
            child_of(0, mem[t]@[slot_of(v, level)]),
            (level - 1) as nat,
            v,
        );
    }
}

impl MachineModel {
    /// The entry that translates an address in a domain's space.
    pub open spec fn translated(self, d: int, v: u64) -> Option<u64> {
        if self.domains[d].space is Some && self.pages.contains_key(
            (self.root_of(d), v),
        ) {
            Some(self.pages[(self.root_of(d), v)].1)
        } else {
            None
        }
    }
}

proof fn unmapping_keeps_domains(m: MachineModel, root: int, vaddr: u64, n: nat)
    ensures
        m.unmap_pages(root, vaddr, n).0.domains == m.domains,
    decreases n,
{
    if n > 0 {
        unmapping_keeps_domains(m, root, vaddr, (n - 1) as nat);
    }
}

/// Unmapping the pages of a range leaves of a space what was there outside it,
/// and nothing inside.
proof fn unmapping_clears(m: MachineModel, root: int, vaddr: u64, n: nat, w: u64)
    requires
        vaddr + n * 0x1000 <= USER_END,
        vaddr % 0x1000 == 0,
        w < USER_END,
        forall|v: u64, x: u64|
            v < USER_END && x < USER_END && same_page(v, x, 0)
                ==> #[trigger] m.pages.contains_key((root, v)) == #[trigger] m.pages.contains_key(
                (root, x),
            ),
        forall|v: u64| #[trigger]
            m.pages.contains_key((root, v)) ==> m.pages[(root, v)].0 == 0,
    ensures
        ({
            let after = m.unmap_pages(root, vaddr, n).0;
            &&& vaddr <= w < vaddr + n * 0x1000 ==> !after.pages.contains_key((root, w))
            &&& !(vaddr <= w < vaddr + n * 0x1000) ==> after.pages.contains_key((root, w))
                == m.pages.contains_key((root, w))
            &&& after.pages.contains_key((root, w)) ==> after.pages[(root, w)] == m.pages[(root, w)]
        }),
    decreases n,
{
    if n > 0 {
        let v = page_at(vaddr, n - 1);
        let before = m.unmap_pages(root, vaddr, (n - 1) as nat).0;
        unmapping_clears(m, root, vaddr, (n - 1) as nat, w);
        unmapping_clears(m, root, vaddr, (n - 1) as nat, v);
        low_pages_are_numbered(w, v);
        assert(before.pages.contains_key((root, v)) == m.pages.contains_key((root, v)));
        if same_page(w, v, 0) {
            assert(m.pages.contains_key((root, w)) == m.pages.contains_key((root, v)));
        }
    }
}

/// Two addresses in the lower half lie in one page if the page's number is one.
pub proof fn low_pages_are_numbered(v: u64, w: u64)
    requires
        v < USER_END,
        w < USER_END,
    ensures
        same_page(v, w, 0) == (v / 0x1000 == w / 0x1000),
{
    assert(v as int / 0x1000 == 512 * (v as int / 0x20_0000) + (v as int / 0x1000) % 512);
    assert(w as int / 0x1000 == 512 * (w as int / 0x20_0000) + (w as int / 0x1000) % 512);
}

/// Addresses of the lower half are canonical.
proof fn low_is_canonical(v: u64)
    requires
        v < USER_END,
    ensures
        is_canonical(v),
{
}

} // verus!
