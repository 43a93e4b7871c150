//! Bootstrap page tables.
//!
//! The loader builds a complete four-level hierarchy rather than editing the
//! firmware's: an identity map, the direct map and the kernel image. Nothing is
//! mapped user-accessible.

use vstd::prelude::*;

use crate::loader::pool::{mapping_spares, missing_is_counted, spare};
use crate::page_table::{
    child_of, consistent, descend, descend_and_lookup, entry_ok, is_open, large, leaf_entry_bits,
    lookup, lookup_unchanged, lookup_with_new_table, page_translates, prefix_continues, prefix_of,
    present, root_prefix, same_page, slot, slot_of, table_entry_bits, target, way_is_open,
    ways_are_open, zero_entry_bits, Label, Page, Step, ADDRESS_MASK, HUGE, PRESENT, WRITABLE,
};
use crate::protocol::PAGE_SIZE;

verus! {

/// Bytes per large page.
pub const LARGE_PAGE_SIZE: u64 = 2 * 1024 * 1024;

/// One past the highest physical address an entry can hold.
pub const PHYSICAL_LIMIT: u64 = 0x10_0000_0000_0000;

/// Why a mapping could not be installed.
#[derive(Clone, Copy, PartialEq, Eq, Debug, Structural)]
pub enum Error {
    /// The table pool ran out of pages.
    OutOfTables,
    /// A mapping already covers the address.
    AlreadyMapped,
    /// A large page covers the address.
    LargePageInTheWay,
    /// The address is not aligned for the requested page size.
    Misaligned,
}

/// Bump allocator over a block of pages reserved for page tables.
pub struct Pool {
    base: u64,
    pages: usize,
    used: usize,
    memory: Vec<Page>,
}

/// No entry of the page is present.
pub open spec fn is_empty_table(page: Page) -> bool {
    forall|s: int| 0 <= s < 512 ==> #[trigger] page@[s] == 0
}

impl Pool {
    /// Physical address of the block.
    pub closed spec fn base_spec(self) -> u64 {
        self.base
    }

    /// Pages reserved for the block.
    pub closed spec fn pages_spec(self) -> usize {
        self.pages
    }

    /// Pages handed out so far.
    pub closed spec fn used_spec(self) -> usize {
        self.used
    }

    /// The contents of the block.
    pub closed spec fn contents(self) -> Seq<Page> {
        self.memory@
    }

    /// The block is page aligned and addressable, every page of it is there, and
    /// the pages not yet handed out are empty.
    pub closed spec fn wf(self) -> bool {
        &&& self.base % 0x1000 == 0
        &&& self.base + self.pages * 0x1000 <= PHYSICAL_LIMIT
        &&& self.used <= self.pages
        &&& self.memory@.len() == self.pages
        &&& forall|i: int|
            self.used <= i < self.pages ==> is_empty_table(#[trigger] self.memory@[i])
    }

    /// A block of `pages` empty pages at physical address `base`.
    pub fn new(base: u64, pages: usize) -> (pool: Pool)
        requires
            base % 0x1000 == 0,
            base + pages * 0x1000 <= PHYSICAL_LIMIT,
        ensures
            pool.wf(),
            pool.base_spec() == base,
            pool.pages_spec() == pages,
            pool.used_spec() == 0,
    {
        let empty: Page = [0; 512];
        let mut memory: Vec<Page> = Vec::new();
        for i in 0..pages
            invariant
                memory@.len() == i,
                is_empty_table(empty),
                forall|k: int| 0 <= k < i ==> is_empty_table(#[trigger] memory@[k]),
        {
            memory.push(empty);
        }
        Pool { base, pages, used: 0, memory }
    }

    /// Pages reserved for the block.
    pub fn pages(&self) -> (count: usize)
        ensures
            count == self.pages_spec(),
    {
        self.pages
    }

    /// Pages handed out so far.
    pub fn used(&self) -> (count: usize)
        ensures
            count == self.used_spec(),
    {
        self.used
    }

    /// The entries of the page at position `index`, for copying into place.
    pub fn page(&self, index: usize) -> (page: &Page)
        requires
            self.wf(),
            index < self.pages_spec(),
        ensures
            *page == self.contents()[index as int],
    {
        &self.memory[index]
    }

    /// Hands out the next page, which is empty; `None` when there is none left.
    fn take(&mut self) -> (address: Option<u64>)
        requires
            old(self).wf(),
        ensures
            final(self).wf(),
            final(self).base == old(self).base,
            final(self).pages == old(self).pages,
            final(self).memory == old(self).memory,
            match address {
                Some(a) => {
                    &&& old(self).used < old(self).pages
                    &&& final(self).used == old(self).used + 1
                    &&& a == old(self).base + old(self).used * 0x1000
                },
                None => {
                    &&& old(self).used == old(self).pages
                    &&& final(self).used == old(self).used
                },
            },
    {
        if self.used == self.pages {
            return None;
        }
        let address: u64 = self.base + (self.used as u64) * PAGE_SIZE;
        self.used += 1;
        Some(address)
    }
}

/// A page-table hierarchy under construction.
pub struct Tables {
    root: u64,
    pool: Pool,
    labels: Ghost<Seq<Label>>,
}

impl Tables {
    /// The page holding the table at physical address `table`.
    spec fn index_of(self, table: u64) -> int {
        (table - self.pool.base) / 0x1000
    }

    /// `table` is the address of a table with `label`.
    spec fn is_table(self, table: u64, level: nat, prefix: int) -> bool {
        &&& table >= self.pool.base
        &&& (table - self.pool.base) % 0x1000 == 0
        &&& self.index_of(table) < self.pool.used
        &&& self.labels@[self.index_of(table)] == Some((level, prefix))
    }

    /// The entry that `v` selects in `table` leads to `child`.
    spec fn leads(self, table: u64, level: nat, v: u64, child: u64) -> bool {
        let e = self.pool.memory@[self.index_of(table)]@[slot_of(v, level)];
        present(e) && !large(e) && is_open(e) && child_of(self.pool.base as int, e)
            == self.index_of(child)
    }

    /// The tables of `before` keep their labels, and all but the one at
    /// `table` keep their entries.
    spec fn extends(self, before: Tables, table: u64) -> bool {
        forall|i: int|
            0 <= i < before.pool.used ==> {
                &&& #[trigger] self.labels@[i] == before.labels@[i]
                &&& i != before.index_of(table) ==> self.pool.memory@[i] == before.pool.memory@[i]
            }
    }

    /// The hierarchy is consistent and every table lies in the pool.
    pub closed spec fn wf(self) -> bool {
        &&& self.pool.wf()
        &&& consistent(self.pool.base as int, self.pool.memory@, self.labels@)
        &&& forall|i: int|
            self.pool.used <= i < self.pool.pages ==> #[trigger] self.labels@[i] is None
        &&& self.is_table(self.root, 3, 0)
        &&& self.root == self.pool.base
    }

    /// The pool the tables come from.
    pub closed spec fn pool_spec(self) -> Pool {
        self.pool
    }

    /// Physical address of the topmost table.
    pub closed spec fn root_spec(self) -> u64 {
        self.root
    }

    /// The walk of the processor for `v`: the level and the entry it ends at.
    pub open spec fn translation(self, v: u64) -> Option<(nat, u64)> {
        lookup(self.pool_spec().base_spec() as int, self.pool_spec().contents(), 0, 3, v)
    }

    /// No interior entry takes writing or execution away, so that the flags of
    /// a page are those of the entry that ends its walk.
    pub open spec fn leaves_decide(self) -> bool {
        forall|v: u64|
            #[trigger] way_is_open(
                self.pool_spec().base_spec() as int,
                self.pool_spec().contents(),
                0,
                3,
                v,
                false,
            )
    }

    /// Well-formed tables leave every decision to the leaves.
    pub proof fn well_formed_leaves_decide(self)
        requires
            self.wf(),
        ensures
            self.leaves_decide(),
    {
        assert forall|v: u64|
            #[trigger] way_is_open(
                self.pool_spec().base_spec() as int,
                self.pool_spec().contents(),
                0,
                3,
                v,
                false,
            ) by {
            root_prefix(v);
            ways_are_open(self.pool.base as int, self.pool.memory@, self.labels@, 0, 3, v);
        }
    }

    /// The walk for `v` down to the table at level `stop`.
    pub open spec fn way(self, stop: nat, v: u64) -> Step {
        descend(self.pool_spec().base_spec() as int, self.pool_spec().contents(), 0, 3, stop, v)
    }

    /// The entry that `v` selects at level one is present.
    pub open spec fn occupied(self, v: u64) -> bool {
        self.way(1, v) matches Step::Reached(t) && present(
            self.pool_spec().contents()[t]@[slot_of(v, 1)],
        )
    }

    /// Tables the pool can still hand out.
    pub open spec fn free(self) -> int {
        self.pool_spec().pages_spec() - self.pool_spec().used_spec()
    }

    /// Tables that are missing on the way of `v` down to `stop`.
    pub open spec fn missing(self, stop: nat, v: u64) -> nat {
        match self.way(stop, v) {
            Step::Missing(level) => (level - stop) as nat,
            _ => 0,
        }
    }

    /// Every address but those that `changed` names translates as it does in
    /// `before`, and the pool is the same block.
    pub open spec fn agrees_except(self, before: Tables, changed: spec_fn(u64) -> bool) -> bool {
        &&& self.root_spec() == before.root_spec()
        &&& self.pool_spec().base_spec() == before.pool_spec().base_spec()
        &&& self.pool_spec().pages_spec() == before.pool_spec().pages_spec()
        &&& before.pool_spec().used_spec() <= self.pool_spec().used_spec()
        &&& forall|v: u64|
            !changed(v) ==> #[trigger] self.translation(v) == before.translation(v)
    }

    /// Whatever translated in `before` translates to the same here.
    pub open spec fn keeps(self, before: Tables) -> bool {
        forall|w: u64|
            before.translation(w) is Some ==> #[trigger] self.translation(w)
                == before.translation(w)
    }

    /// Every table that was reached in `before` is reached here.
    pub open spec fn reaches(self, before: Tables) -> bool {
        forall|stop: nat, w: u64|
            stop <= 3 && before.way(stop, w) is Reached ==> (#[trigger] self.way(stop, w)) is Reached
    }

    /// Every table of the lowest level that is reached here was reached in
    /// `before`.
    pub open spec fn adds_no_lowest(self, before: Tables) -> bool {
        forall|w: u64| (#[trigger] self.way(0, w)) is Reached ==> before.way(0, w) is Reached
    }

    /// Changing no present entry, every table stays reached.
    proof fn grown_reaches(self, before: Tables)
        requires
            before.wf(),
            self.pool.base == before.pool.base,
            self.pool.memory@.len() == before.pool.memory@.len(),
            forall|i: int, s: int|
                0 <= i < before.pool.memory@.len() && 0 <= s < 512 && present(
                    before.pool.memory@[i]@[s],
                ) ==> #[trigger] self.pool.memory@[i]@[s] == before.pool.memory@[i]@[s],
        ensures
            self.reaches(before),
    {
        assert forall|stop: nat, w: u64|
            stop <= 3 && before.way(stop, w) is Reached implies (#[trigger] self.way(
            stop,
            w,
        )) is Reached by {
            root_prefix(w);
            crate::page_table::reached_stays(
                before.pool.base as int,
                before.pool.memory@,
                before.labels@,
                0,
                3,
                stop,
                w,
                self.pool.memory@,
            );
        }
    }

    /// Changing one absent entry to a large page, or to lead to an empty table
    /// that is not of the lowest level, reaches no table of the lowest level.
    proof fn grown_adds_no_lowest(self, before: Tables, at: int, s: int)
        requires
            before.wf(),
            self.pool.base == before.pool.base,
            self.pool.memory@.len() == before.pool.memory@.len(),
            forall|i: int, k: int|
                0 <= i < before.pool.memory@.len() && before.labels@[i] is Some && 0 <= k < 512
                    && !(i == at && k == s) ==> #[trigger] self.pool.memory@[i]@[k]
                    == before.pool.memory@[i]@[k],
            before.labels@[at] matches Some((l, _)) && {
                ||| large(self.pool.memory@[at]@[s])
                ||| l >= 2 && is_empty_table(
                    self.pool.memory@[child_of(
                        self.pool.base as int,
                        self.pool.memory@[at]@[s],
                    )],
                )
            },
        ensures
            self.adds_no_lowest(before),
    {
        zero_entry_bits();
        assert forall|w: u64| (#[trigger] self.way(0, w)) is Reached implies before.way(
            0,
            w,
        ) is Reached by {
            root_prefix(w);
            crate::page_table::no_new_lowest_table(
                before.pool.base as int,
                before.pool.memory@,
                before.labels@,
                0,
                3,
                w,
                self.pool.memory@,
                at,
                s,
            );
        }
    }

    /// Where a large page can go, nothing translates yet.
    proof fn vacant_large_page(self, v: u64, w: u64)
        requires
            same_page(w, v, 1),
            !(self.way(1, v) is Large),
            !self.occupied(v),
        ensures
            self.translation(w) is None,
    {
        let base = self.pool_spec().base_spec() as int;
        let mem = self.pool_spec().contents();
        crate::page_table::descend_together(base, mem, 0, 3, 1, v, w);
        descend_and_lookup(base, mem, 0, 3, 1, w);
    }

    /// Takes the topmost table from `pool`.
    pub fn new(pool: Pool) -> (result: Result<Tables, Error>)
        requires
            pool.wf(),
            pool.used_spec() == 0,
        ensures
            match result {
                Ok(tables) => {
                    &&& pool.pages_spec() > 0
                    &&& tables.wf()
                    &&& tables.root_spec() == pool.base_spec()
                    &&& tables.pool_spec().base_spec() == pool.base_spec()
                    &&& tables.pool_spec().pages_spec() == pool.pages_spec()
                    &&& tables.pool_spec().used_spec() == 1
                    &&& forall|v: u64| #[trigger] tables.translation(v) is None
                    &&& forall|v: u64, stop: nat|
                        stop < 3 ==> #[trigger] tables.way(stop, v) == Step::Missing(3)
                },
                Err(e) => e == Error::OutOfTables && pool.pages_spec() == 0,
            },
    {
        let mut pool = pool;
        let ghost before = pool;
        match pool.take() {
            None => Err(Error::OutOfTables),
            Some(root) => {
                let ghost labels: Seq<Label> = Seq::new(
                    pool.pages as nat,
                    |i: int|
                        if i == 0 {
                            Some((3nat, 0int))
                        } else {
                            None
                        },
                );
                let tables = Tables { root, pool, labels: Ghost(labels) };
                proof {
                    zero_entry_bits();
                    assert(is_empty_table(before.memory@[0]));
                    assert forall|t: int, s: int|
                        0 <= t < tables.pool.memory@.len() && 0 <= s < 512 implies entry_ok(
                        tables.pool.base as int,
                        labels,
                        labels[t],
                        s,
                        #[trigger] tables.pool.memory@[t]@[s],
                    ) by {
                        assert(is_empty_table(before.memory@[t]));
                    }
                }
                Ok(tables)
            },
        }
    }

    /// Physical address of the topmost table.
    pub fn root(&self) -> (address: u64)
        ensures
            address == self.root_spec(),
    {
        self.root
    }

    /// The table pool, for reporting how much of it was used.
    pub fn pool(&self) -> (pool: &Pool)
        ensures
            *pool == self.pool_spec(),
    {
        &self.pool
    }

    /// The table below the entry that `v` selects in `table`, made if absent.
    fn child(&mut self, table: u64, level: u32, v: u64) -> (result: Result<u64, Error>)
        requires
            old(self).wf(),
            1 <= level <= 3,
            old(self).is_table(table, level as nat, prefix_of(v, level as nat)),
        ensures
            final(self).wf(),
            final(self).agrees_except(*old(self), |w: u64| false),
            final(self).pool.base == old(self).pool.base,
            final(self).extends(*old(self), table),
            final(self).reaches(*old(self)),
            final(self).leaves_decide(),
            level >= 2 ==> final(self).adds_no_lowest(*old(self)),
            ({
                let e = old(self).pool.memory@[old(self).index_of(table)]@[slot_of(
                    v,
                    level as nat,
                )];
                match result {
                    Ok(child) => {
                        &&& final(self).is_table(
                            child,
                            (level - 1) as nat,
                            prefix_of(v, (level - 1) as nat),
                        )
                        &&& final(self).leads(table, level as nat, v, child)
                        &&& present(e) ==> {
                            &&& !large(e)
                            &&& final(self).index_of(child) == child_of(
                                old(self).pool.base as int,
                                e,
                            )
                            &&& final(self).pool == old(self).pool
                        }
                        &&& !present(e) ==> {
                            &&& old(self).pool.used < old(self).pool.pages
                            &&& final(self).pool.used == old(self).pool.used + 1
                            &&& is_empty_table(
                                final(self).pool.memory@[final(self).index_of(child)],
                            )
                        }
                    },
                    Err(Error::LargePageInTheWay) => present(e) && large(e) && final(self).pool
                        == old(self).pool,
                    Err(Error::OutOfTables) => !present(e) && old(self).pool.used == old(
                        self,
                    ).pool.pages && final(self).pool == old(self).pool,
                    Err(_) => false,
                }
            }),
    {
        let at: usize = ((table - self.pool.base) / PAGE_SIZE) as usize;
        let index: usize = slot(v, level);
        let entry: u64 = self.pool.memory[at][index];
        proof {
            self.well_formed_leaves_decide();
            prefix_continues(v, level as nat);
            assert(entry_ok(
                self.pool.base as int,
                self.labels@,
                self.labels@[at as int],
                index as int,
                self.pool.memory@[at as int]@[index as int],
            ));
        }
        if entry & PRESENT != 0 {
            if entry & HUGE != 0 {
                return Err(Error::LargePageInTheWay);
            }
            return Ok(entry & ADDRESS_MASK);
        }
        let ghost before = *self;
        let fresh: usize = self.pool.used;
        match self.pool.take() {
            None => {
                Err(Error::OutOfTables)
            },
            Some(child) => {
                let flags: u64 = PRESENT | WRITABLE;
                proof {
                    assert(flags == 3 && flags & 1 != 0 && flags & 2 != 0) by (bit_vector)
                        requires
                            flags == 1u64 | 2u64,
                    ;
                    table_entry_bits(child, flags);
                }
                self.pool.memory[at][index] = child | flags;
                proof {
                    let label: Label = Some(
                        ((level - 1) as nat, prefix_of(v, (level - 1) as nat)),
                    );
                    self.labels@ = self.labels@.update(fresh as int, label);
                    self.installed(before, at as int, index as int, fresh as int, label);
                    self.well_formed_leaves_decide();
                    self.grown_reaches(before);
                    if level >= 2 {
                        self.grown_adds_no_lowest(before, at as int, index as int);
                    }
                }
                Ok(child)
            },
        }
    }

    /// Hanging an empty table below an absent entry keeps the hierarchy
    /// consistent and translates nothing new.
    proof fn installed(self, before: Tables, at: int, s: int, fresh: int, label: Label)
        requires
            before.wf(),
            self.root == before.root,
            self.pool.base == before.pool.base,
            self.pool.pages == before.pool.pages,
            self.pool.used == before.pool.used + 1,
            self.pool.used <= self.pool.pages,
            fresh == before.pool.used,
            0 <= at < before.pool.used,
            0 <= s < 512,
            self.pool.memory@.len() == before.pool.memory@.len(),
            forall|i: int|
                0 <= i < self.pool.memory@.len() && i != at ==> self.pool.memory@[i]
                    == before.pool.memory@[i],
            self.pool.memory@[at]@ == before.pool.memory@[at]@.update(
                s,
                self.pool.memory@[at]@[s],
            ),
            present(self.pool.memory@[at]@[s]),
            !large(self.pool.memory@[at]@[s]),
            is_open(self.pool.memory@[at]@[s]),
            target(self.pool.memory@[at]@[s]) == self.pool.base + fresh * 0x1000,
            !present(before.pool.memory@[at]@[s]),
            before.labels@[at] matches Some((l, p)) && l > 0 && label == Some(
                ((l - 1) as nat, p * 512 + s),
            ),
            self.labels@ == before.labels@.update(fresh, label),
        ensures
            self.wf(),
            self.agrees_except(before, |w: u64| false),
            is_empty_table(self.pool.memory@[fresh]),
    {
        let base = self.pool.base as int;
        let mem = self.pool.memory@;
        let old_mem = before.pool.memory@;
        zero_entry_bits();
        assert(is_empty_table(old_mem[fresh]));
        assert(child_of(base, mem[at]@[s]) == fresh);
        assert forall|t: int, k: int| 0 <= t < mem.len() && 0 <= k < 512 implies entry_ok(
            base,
            self.labels@,
            self.labels@[t],
            k,
            #[trigger] mem[t]@[k],
        ) by {
            if t == fresh {
                assert(mem[t]@[k] == 0);
            } else if t == at && k == s {
            } else {
                assert(mem[t]@[k] == old_mem[t]@[k]);
                assert(entry_ok(base, before.labels@, before.labels@[t], k, old_mem[t]@[k]));
            }
        }
        assert forall|i: int| self.pool.used <= i < self.pool.pages implies is_empty_table(
            #[trigger] mem[i],
        ) by {
            assert(is_empty_table(old_mem[i]));
        }
        assert forall|v: u64| #[trigger] self.translation(v) == before.translation(v) by {
            root_prefix(v);
            lookup_with_new_table(base, old_mem, before.labels@, 0, 3, v, at, s, mem, fresh);
        }
    }

    /// Writing an entry that ends a walk changes the translation of the page it
    /// covers and of no other address.
    proof fn written(self, before: Tables, at: int, level: nat, vaddr: u64, e: u64)
        requires
            before.wf(),
            self.root == before.root,
            self.labels == before.labels,
            self.pool.base == before.pool.base,
            self.pool.pages == before.pool.pages,
            self.pool.used == before.pool.used,
            0 <= at < before.pool.used,
            before.labels@[at] == Some((level, prefix_of(vaddr, level))),
            level <= 1,
            level == 1 ==> large(e),
            present(e),
            self.pool.memory@.len() == before.pool.memory@.len(),
            forall|i: int|
                0 <= i < self.pool.memory@.len() && i != at ==> self.pool.memory@[i]
                    == before.pool.memory@[i],
            self.pool.memory@[at]@ == before.pool.memory@[at]@.update(slot_of(vaddr, level), e),
        ensures
            self.wf(),
            self.agrees_except(before, |w: u64| same_page(w, vaddr, level)),
    {
        let base = self.pool.base as int;
        let mem = self.pool.memory@;
        let old_mem = before.pool.memory@;
        let s = slot_of(vaddr, level);
        assert(0 <= s < 512);
        assert forall|t: int, k: int| 0 <= t < mem.len() && 0 <= k < 512 implies entry_ok(
            base,
            self.labels@,
            self.labels@[t],
            k,
            #[trigger] mem[t]@[k],
        ) by {
            if t == at && k == s {
            } else {
                assert(mem[t]@[k] == old_mem[t]@[k]);
                assert(entry_ok(base, before.labels@, before.labels@[t], k, old_mem[t]@[k]));
            }
        }
        assert forall|i: int| self.pool.used <= i < self.pool.pages implies is_empty_table(
            #[trigger] mem[i],
        ) by {
            assert(is_empty_table(old_mem[i]));
        }
        assert forall|w: u64| !same_page(w, vaddr, level) implies #[trigger] self.translation(w)
            == before.translation(w) by {
            root_prefix(w);
            lookup_unchanged(base, old_mem, before.labels@, 0, 3, w, at, s, e, mem);
        }
    }

    /// Maps one page with a single entry.
    ///
    /// Tables that were made on the way stay when the mapping fails; they
    /// translate nothing.
    pub fn map(&mut self, vaddr: u64, phys: u64, flags: u64) -> (result: Result<(), Error>)
        requires
            old(self).wf(),
        ensures
            final(self).wf(),
            result == Err::<(), Error>(Error::Misaligned) <==> vaddr % 0x1000 != 0 || phys % 0x1000
                != 0,
            vaddr % 0x1000 == 0 && phys % 0x1000 == 0 ==> match old(self).translation(vaddr) {
                Some((level, _)) => result == Err::<(), Error>(
                    if level == 0 {
                        Error::AlreadyMapped
                    } else {
                        Error::LargePageInTheWay
                    },
                ),
                None => result == (if old(self).free() < old(self).missing(0, vaddr) {
                    Err(Error::OutOfTables)
                } else {
                    Ok(())
                }),
            },
            old(self).missing(0, vaddr) <= 3,
            final(self).free() == if vaddr % 0x1000 != 0 || phys % 0x1000 != 0 {
                old(self).free()
            } else if old(self).free() < old(self).missing(0, vaddr) {
                0
            } else {
                old(self).free() - old(self).missing(0, vaddr)
            },
            final(self).agrees_except(
                *old(self),
                |w: u64| result is Ok && same_page(w, vaddr, 0),
            ),
            result == Err::<(), Error>(Error::AlreadyMapped) || result == Err::<(), Error>(
                Error::LargePageInTheWay,
            ) || result == Err::<(), Error>(Error::Misaligned) ==> final(self).pool_spec() == old(
                self,
            ).pool_spec(),
            final(self).leaves_decide(),
            result is Ok ==> forall|w: u64|
                same_page(w, vaddr, 0) ==> #[trigger] final(self).translation(w) == Some(
                    (0nat, phys | flags | PRESENT),
                ),
            final(self).reaches(*old(self)),
    {
        proof {
            descend_and_lookup(self.pool.base as int, self.pool.memory@, 0, 3, 0, vaddr);
            self.well_formed_leaves_decide();
        }
        if vaddr % PAGE_SIZE != 0 || phys % PAGE_SIZE != 0 {
            return Err(Error::Misaligned);
        }
        proof {
            root_prefix(vaddr);
            zero_entry_bits();
            reveal_with_fuel(descend, 5);
        }
        let root: u64 = self.root;
        let pdpt: u64 = match self.child(root, 3, vaddr) {
            Ok(table) => table,
            Err(error) => return Err(error),
        };
        let pd: u64 = match self.child(pdpt, 2, vaddr) {
            Ok(table) => table,
            Err(error) => return Err(error),
        };
        let pt: u64 = match self.child(pd, 1, vaddr) {
            Ok(table) => table,
            Err(error) => return Err(error),
        };
        let at: usize = ((pt - self.pool.base) / PAGE_SIZE) as usize;
        let index: usize = slot(vaddr, 0);
        if self.pool.memory[at][index] & PRESENT != 0 {
            return Err(Error::AlreadyMapped);
        }
        let ghost before = *self;
        self.pool.memory[at][index] = phys | flags | PRESENT;
        proof {
            leaf_entry_bits(phys | flags);
            self.written(before, at as int, 0, vaddr, phys | flags | PRESENT);
            self.well_formed_leaves_decide();
            self.grown_reaches(before);
            assert(self.leads(root, 3, vaddr, pdpt));
            assert(self.leads(pdpt, 2, vaddr, pd));
            assert(self.leads(pd, 1, vaddr, pt));
            let base = self.pool.base as int;
            let mem = self.pool.memory@;
            assert(descend(base, mem, 0, 3, 0, vaddr) == Step::Reached(at as int));
            assert forall|w: u64| same_page(w, vaddr, 0) implies #[trigger] self.translation(w)
                == Some((0nat, phys | flags | PRESENT)) by {
                page_translates(base, mem, 0, 3, 0, vaddr, w);
            }
        }
        Ok(())
    }

    /// Maps one large page with a single entry.
    ///
    /// Tables that were made on the way stay when the mapping fails; they
    /// translate nothing.
    pub fn map_large(&mut self, vaddr: u64, phys: u64, flags: u64) -> (result: Result<(), Error>)
        requires
            old(self).wf(),
        ensures
            final(self).wf(),
            result == Err::<(), Error>(Error::Misaligned) <==> vaddr % LARGE_PAGE_SIZE != 0 || phys
                % LARGE_PAGE_SIZE != 0,
            vaddr % LARGE_PAGE_SIZE == 0 && phys % LARGE_PAGE_SIZE == 0 ==> match old(self).way(
                1,
                vaddr,
            ) {
                Step::Large(_) => result == Err::<(), Error>(Error::LargePageInTheWay),
                Step::Reached(_) => result == (if old(self).occupied(vaddr) {
                    Err(Error::AlreadyMapped)
                } else {
                    Ok(())
                }),
                Step::Missing(_) => result == (if old(self).free() < old(self).missing(1, vaddr) {
                    Err(Error::OutOfTables)
                } else {
                    Ok(())
                }),
            },
            old(self).missing(1, vaddr) <= 2,
            final(self).free() == if vaddr % LARGE_PAGE_SIZE != 0 || phys % LARGE_PAGE_SIZE != 0 {
                old(self).free()
            } else if old(self).free() < old(self).missing(1, vaddr) {
                0
            } else {
                old(self).free() - old(self).missing(1, vaddr)
            },
            final(self).agrees_except(
                *old(self),
                |w: u64| result is Ok && same_page(w, vaddr, 1),
            ),
            result == Err::<(), Error>(Error::AlreadyMapped) || result == Err::<(), Error>(
                Error::LargePageInTheWay,
            ) || result == Err::<(), Error>(Error::Misaligned) ==> final(self).pool_spec() == old(
                self,
            ).pool_spec(),
            final(self).leaves_decide(),
            result is Ok ==> forall|w: u64|
                same_page(w, vaddr, 1) ==> #[trigger] final(self).translation(w) == Some(
                    (1nat, phys | flags | HUGE | PRESENT),
                ),
            final(self).reaches(*old(self)),
            final(self).adds_no_lowest(*old(self)),
    {
        proof {
            descend_and_lookup(self.pool.base as int, self.pool.memory@, 0, 3, 1, vaddr);
            self.well_formed_leaves_decide();
        }
        if vaddr % LARGE_PAGE_SIZE != 0 || phys % LARGE_PAGE_SIZE != 0 {
            return Err(Error::Misaligned);
        }
        proof {
            root_prefix(vaddr);
            zero_entry_bits();
            reveal_with_fuel(descend, 4);
        }
        let root: u64 = self.root;
        let pdpt: u64 = match self.child(root, 3, vaddr) {
            Ok(table) => table,
            Err(error) => return Err(error),
        };
        let pd: u64 = match self.child(pdpt, 2, vaddr) {
            Ok(table) => table,
            Err(error) => return Err(error),
        };
        let at: usize = ((pd - self.pool.base) / PAGE_SIZE) as usize;
        let index: usize = slot(vaddr, 1);
        if self.pool.memory[at][index] & PRESENT != 0 {
            return Err(Error::AlreadyMapped);
        }
        let ghost before = *self;
        self.pool.memory[at][index] = phys | flags | HUGE | PRESENT;
        proof {
            let e = phys | flags | HUGE | PRESENT;
            leaf_entry_bits(phys | flags);
            self.written(before, at as int, 1, vaddr, e);
            self.well_formed_leaves_decide();
            self.grown_reaches(before);
            self.grown_adds_no_lowest(before, at as int, index as int);
            assert(self.leads(root, 3, vaddr, pdpt));
            assert(self.leads(pdpt, 2, vaddr, pd));
            let base = self.pool.base as int;
            let mem = self.pool.memory@;
            assert(descend(base, mem, 0, 3, 1, vaddr) == Step::Reached(at as int));
            assert forall|w: u64| same_page(w, vaddr, 1) implies #[trigger] self.translation(w)
                == Some((1nat, e)) by {
                page_translates(base, mem, 0, 3, 1, vaddr, w);
            }
        }
        Ok(())
    }

    /// Maps `count` pages starting at `vaddr` and `phys`, in order, up to the
    /// first that cannot be mapped.
    pub fn map_range(&mut self, vaddr: u64, phys: u64, count: u64, flags: u64) -> (result: Result<
        (),
        Error,
    >)
        requires
            old(self).wf(),
            vaddr + count * 0x1000 <= 0x1_0000_0000_0000_0000,
            phys + count * 0x1000 <= 0x1_0000_0000_0000_0000,
        ensures
            final(self).wf(),
            exists|done: int| #[trigger]
                pages_mapped(*old(self), *final(self), vaddr, phys, done, flags, 0) && match result {
                    Ok(()) => done == count,
                    Err(e) => {
                        &&& 0 <= done < count
                        &&& page_refused(*final(self), vaddr, phys, done, 0, e)
                    },
                },
            result == Err::<(), Error>(Error::OutOfTables) ==> old(self).free() < 3 * count,
            count == 0 ==> final(self).pool_spec() == old(self).pool_spec(),
            final(self).leaves_decide(),
            final(self).keeps(*old(self)),
            final(self).reaches(*old(self)),
            result is Ok ==> forall|lo: int, hi: int|
                0 <= lo <= vaddr && vaddr + count * 0x1000 <= hi ==> #[trigger] spare(
                    *final(self),
                    0,
                    lo,
                    hi,
                ) >= spare(*old(self), 0, lo, hi),
            result == Err::<(), Error>(Error::OutOfTables) ==> forall|lo: int, hi: int|
                0 <= lo <= vaddr && vaddr + count * 0x1000 <= hi ==> #[trigger] spare(
                    *old(self),
                    0,
                    lo,
                    hi,
                ) < 0,
    {
        assert(pages_mapped(*old(self), *self, vaddr, phys, 0, flags, 0));
        proof {
            self.well_formed_leaves_decide();
        }
        for index in 0..count
            invariant
                self.wf(),
                vaddr + count * 0x1000 <= 0x1_0000_0000_0000_0000,
                phys + count * 0x1000 <= 0x1_0000_0000_0000_0000,
                pages_mapped(*old(self), *self, vaddr, phys, index as int, flags, 0),
                old(self).free() - self.free() <= 3 * index,
                index == 0 ==> self.pool == old(self).pool,
                self.leaves_decide(),
                self.keeps(*old(self)),
                self.reaches(*old(self)),
                forall|lo: int, hi: int|
                    0 <= lo <= vaddr && vaddr + count * 0x1000 <= hi ==> #[trigger] spare(
                        *self,
                        0,
                        lo,
                        hi,
                    ) >= spare(*old(self), 0, lo, hi),
        {
            let ghost before = *self;
            let v: u64 = vaddr + index * PAGE_SIZE;
            let p: u64 = phys + index * PAGE_SIZE;
            assert(v == page_at(vaddr, index as int, 0));
            assert(p == page_at(phys, index as int, 0));
            proof {
                descend_and_lookup(
                    before.pool.base as int,
                    before.pool.memory@,
                    0,
                    3,
                    0,
                    v,
                );
            }
            match self.map(v, p, flags) {
                Ok(()) => {
                    proof {
                        descend_and_lookup(
                            self.pool.base as int,
                            self.pool.memory@,
                            0,
                            3,
                            0,
                            v,
                        );
                        assert(self.translation(v) is Some) by {
                            assert(same_page(v, v, 0));
                        }
                        assert(self.way(0, v) is Reached);
                        assert forall|lo: int, hi: int|
                            0 <= lo <= vaddr && vaddr + count * 0x1000 <= hi implies #[trigger] spare(
                            *self,
                            0,
                            lo,
                            hi,
                        ) >= spare(*old(self), 0, lo, hi) by {
                            assert(spare(before, 0, lo, hi) >= spare(*old(self), 0, lo, hi));
                            mapping_spares(before, *self, 0, v, lo, hi);
                        }
                        assert forall|w: u64| old(self).translation(w) is Some implies (
                        #[trigger] self.translation(w)) == old(self).translation(w) by {
                            assert(before.translation(w) == old(self).translation(w));
                            if same_page(w, v, 0) {
                                crate::page_table::page_walks_alike(
                                    before.pool_spec().base_spec() as int,
                                    before.pool_spec().contents(),
                                    0,
                                    3,
                                    v,
                                    w,
                                );
                            }
                        }
                        range_step(*old(self), before, *self, vaddr, phys, index as int, flags, 0);
                    }
                },
                Err(error) => {
                    proof {
                        assert forall|w: u64| old(self).translation(w) is Some implies (
                        #[trigger] self.translation(w)) == old(self).translation(w) by {
                            assert(before.translation(w) == old(self).translation(w));
                        }
                        range_stop(*old(self), before, *self, vaddr, phys, index as int, flags, 0);
                        if error == Error::OutOfTables {
                            assert forall|lo: int, hi: int|
                                0 <= lo <= vaddr && vaddr + count * 0x1000 <= hi implies
                                #[trigger] spare(*old(self), 0, lo, hi) < 0 by {
                                assert(spare(before, 0, lo, hi) >= spare(*old(self), 0, lo, hi));
                                missing_is_counted(before, 0, v, lo, hi);
                            }
                        }
                    }
                    return Err(error);
                },
            }
        }
        Ok(())
    }

    /// Maps `count` large pages starting at `vaddr` and `phys`, in order, up to
    /// the first that cannot be mapped.
    pub fn map_large_range(&mut self, vaddr: u64, phys: u64, count: u64, flags: u64) -> (result:
        Result<(), Error>)
        requires
            old(self).wf(),
            vaddr + count * LARGE_PAGE_SIZE <= 0x1_0000_0000_0000_0000,
            phys + count * LARGE_PAGE_SIZE <= 0x1_0000_0000_0000_0000,
        ensures
            final(self).wf(),
            exists|done: int| #[trigger]
                pages_mapped(*old(self), *final(self), vaddr, phys, done, flags, 1) && match result {
                    Ok(()) => done == count,
                    Err(e) => {
                        &&& 0 <= done < count
                        &&& page_refused(*final(self), vaddr, phys, done, 1, e)
                    },
                },
            result == Err::<(), Error>(Error::OutOfTables) ==> old(self).free() < 2 * count,
            count == 0 ==> final(self).pool_spec() == old(self).pool_spec(),
            final(self).leaves_decide(),
            final(self).keeps(*old(self)),
            final(self).reaches(*old(self)),
            final(self).adds_no_lowest(*old(self)),
            result is Ok ==> forall|lo: int, hi: int|
                0 <= lo <= vaddr && vaddr + count * LARGE_PAGE_SIZE <= hi ==> #[trigger] spare(
                    *final(self),
                    1,
                    lo,
                    hi,
                ) >= spare(*old(self), 1, lo, hi),
            result == Err::<(), Error>(Error::OutOfTables) ==> forall|lo: int, hi: int|
                0 <= lo <= vaddr && vaddr + count * LARGE_PAGE_SIZE <= hi ==> #[trigger] spare(
                    *old(self),
                    1,
                    lo,
                    hi,
                ) < 0,
    {
        assert(pages_mapped(*old(self), *self, vaddr, phys, 0, flags, 1));
        proof {
            self.well_formed_leaves_decide();
        }
        for index in 0..count
            invariant
                self.wf(),
                vaddr + count * 0x20_0000 <= 0x1_0000_0000_0000_0000,
                phys + count * 0x20_0000 <= 0x1_0000_0000_0000_0000,
                pages_mapped(*old(self), *self, vaddr, phys, index as int, flags, 1),
                old(self).free() - self.free() <= 2 * index,
                index == 0 ==> self.pool == old(self).pool,
                self.leaves_decide(),
                self.keeps(*old(self)),
                self.reaches(*old(self)),
                self.adds_no_lowest(*old(self)),
                forall|lo: int, hi: int|
                    0 <= lo <= vaddr && vaddr + count * 0x20_0000 <= hi ==> #[trigger] spare(
                        *self,
                        1,
                        lo,
                        hi,
                    ) >= spare(*old(self), 1, lo, hi),
        {
            let ghost before = *self;
            let v: u64 = vaddr + index * 0x20_0000;
            let p: u64 = phys + index * 0x20_0000;
            assert(v == page_at(vaddr, index as int, 1));
            assert(p == page_at(phys, index as int, 1));
            proof {
                descend_and_lookup(
                    before.pool.base as int,
                    before.pool.memory@,
                    0,
                    3,
                    1,
                    v,
                );
            }
            match self.map_large(v, p, flags) {
                Ok(()) => {
                    proof {
                        descend_and_lookup(
                            self.pool.base as int,
                            self.pool.memory@,
                            0,
                            3,
                            1,
                            v,
                        );
                        assert(self.translation(v) is Some) by {
                            assert(same_page(v, v, 1));
                        }
                        assert(self.way(1, v) is Reached);
                        assert forall|lo: int, hi: int|
                            0 <= lo <= vaddr && vaddr + count * 0x20_0000 <= hi implies #[trigger] spare(
                            *self,
                            1,
                            lo,
                            hi,
                        ) >= spare(*old(self), 1, lo, hi) by {
                            assert(spare(before, 1, lo, hi) >= spare(*old(self), 1, lo, hi));
                            mapping_spares(before, *self, 1, v, lo, hi);
                        }
                        assert forall|w: u64| old(self).translation(w) is Some implies (
                        #[trigger] self.translation(w)) == old(self).translation(w) by {
                            assert(before.translation(w) == old(self).translation(w));
                            if same_page(w, v, 1) {
                                before.vacant_large_page(v, w);
                            }
                        }
                        range_step(*old(self), before, *self, vaddr, phys, index as int, flags, 1);
                    }
                },
                Err(error) => {
                    proof {
                        assert forall|w: u64| old(self).translation(w) is Some implies (
                        #[trigger] self.translation(w)) == old(self).translation(w) by {
                            assert(before.translation(w) == old(self).translation(w));
                        }
                        range_stop(*old(self), before, *self, vaddr, phys, index as int, flags, 1);
                        if error == Error::OutOfTables {
                            assert forall|lo: int, hi: int|
                                0 <= lo <= vaddr && vaddr + count * 0x20_0000 <= hi implies
                                #[trigger] spare(*old(self), 1, lo, hi) < 0 by {
                                assert(spare(before, 1, lo, hi) >= spare(*old(self), 1, lo, hi));
                                missing_is_counted(before, 1, v, lo, hi);
                            }
                        }
                    }
                    return Err(error);
                },
            }
        }
        Ok(())
    }
}

proof fn range_step(
    start: Tables,
    before: Tables,
    after: Tables,
    vaddr: u64,
    phys: u64,
    i: int,
    flags: u64,
    level: nat,
)
    requires
        0 <= i,
        level <= 1,
        pages_mapped(start, before, vaddr, phys, i, flags, level),
        !(before.way(level, page_at(vaddr, i, level)) matches Step::Reached(t) && present(
            before.pool_spec().contents()[t]@[slot_of(page_at(vaddr, i, level), level)],
        )),
        !(before.way(level, page_at(vaddr, i, level)) is Large),
        after.agrees_except(
            before,
            |w: u64| same_page(w, page_at(vaddr, i, level), level),
        ),
        forall|w: u64|
            same_page(w, page_at(vaddr, i, level), level) ==> #[trigger] after.translation(w)
                == Some((level, range_entry(phys, i, flags, level))),
    ensures
        pages_mapped(start, after, vaddr, phys, i + 1, flags, level),
{
    let v = page_at(vaddr, i, level);
    let base = before.pool_spec().base_spec() as int;
    descend_and_lookup(base, before.pool_spec().contents(), 0, 3, level, v);
    assert(before.translation(v) is None);
    assert forall|w: u64| !in_range(w, vaddr, i + 1, level) implies #[trigger] after.translation(w)
        == start.translation(w) by {
        assert(!same_page(w, page_at(vaddr, i, level), level));
        if in_range(w, vaddr, i, level) {
            let k = choose|k: int| 0 <= k < i && #[trigger] same_page(w, page_at(vaddr, k, level), level);
            assert(0 <= k < i + 1 && same_page(w, page_at(vaddr, k, level), level));
        }
        assert(before.translation(w) == start.translation(w));
    }
    assert forall|k: int, w: u64|
        0 <= k < i + 1 && #[trigger] same_page(w, page_at(vaddr, k, level), level) implies
        after.translation(w) == Some((level, range_entry(phys, k, flags, level))) by {
        if k < i {
            if same_page(w, v, level) {
                assert(same_page(v, page_at(vaddr, k, level), level));
            }
            assert(before.translation(w) == Some((level, range_entry(phys, k, flags, level))));
        }
    }
}

proof fn range_stop(
    start: Tables,
    before: Tables,
    after: Tables,
    vaddr: u64,
    phys: u64,
    i: int,
    flags: u64,
    level: nat,
)
    requires
        0 <= i,
        level <= 1,
        pages_mapped(start, before, vaddr, phys, i, flags, level),
        after.agrees_except(before, |w: u64| false),
    ensures
        pages_mapped(start, after, vaddr, phys, i, flags, level),
{
    assert forall|w: u64| !in_range(w, vaddr, i, level) implies #[trigger] after.translation(w)
        == start.translation(w) by {
        assert(before.translation(w) == start.translation(w));
    }
    assert forall|k: int, w: u64|
        0 <= k < i && #[trigger] same_page(w, page_at(vaddr, k, level), level) implies
        after.translation(w) == Some((level, range_entry(phys, k, flags, level))) by {
        assert(after.translation(w) == before.translation(w));
    }
}

/// Page `i` of a range that starts at `start`, in pages of the size an entry at
/// `level` covers.
pub open spec fn page_at(start: u64, i: int, level: nat) -> u64 {
    (start + i * crate::page_table::span(level)) as u64
}

/// `v` lies in one of the first `done` pages of the range at `vaddr`.
pub open spec fn in_range(v: u64, vaddr: u64, done: int, level: nat) -> bool {
    exists|i: int| 0 <= i < done && #[trigger] same_page(v, page_at(vaddr, i, level), level)
}

/// The entry for page `i` of a range.
pub open spec fn range_entry(phys: u64, i: int, flags: u64, level: nat) -> u64 {
    if level == 0 {
        page_at(phys, i, level) | flags | PRESENT
    } else {
        page_at(phys, i, level) | flags | HUGE | PRESENT
    }
}

/// Between `before` and `after` the first `done` pages of the range were mapped
/// and nothing else changed.
pub open spec fn pages_mapped(
    before: Tables,
    after: Tables,
    vaddr: u64,
    phys: u64,
    done: int,
    flags: u64,
    level: nat,
) -> bool {
    &&& after.agrees_except(before, |w: u64| in_range(w, vaddr, done, level))
    &&& forall|i: int, w: u64|
        0 <= i < done && #[trigger] same_page(w, page_at(vaddr, i, level), level)
            ==> after.translation(w) == Some((level, range_entry(phys, i, flags, level)))
}

/// Why page `i` of the range cannot be mapped in `tables`.
pub open spec fn page_refused(
    tables: Tables,
    vaddr: u64,
    phys: u64,
    i: int,
    level: nat,
    e: Error,
) -> bool {
    let v = page_at(vaddr, i, level);
    let aligned = v as int % crate::page_table::span(level) == 0 && page_at(phys, i, level) as int
        % crate::page_table::span(level) == 0;
    match e {
        Error::Misaligned => !aligned,
        Error::LargePageInTheWay => aligned && tables.way(level, v) is Large,
        Error::AlreadyMapped => aligned && (tables.way(level, v) matches Step::Reached(t)
            && present(tables.pool_spec().contents()[t]@[slot_of(v, level)])),
        Error::OutOfTables => aligned && tables.translation(v) is None && tables.free() == 0,
    }
}

} // verus!
