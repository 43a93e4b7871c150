//! How many tables a range of addresses still needs.

use vstd::prelude::*;

use crate::loader::paging::Tables;
use crate::page_table::{descend, descend_together, prefix_of, span};

verus! {

/// First address of block `k`: the addresses that share a table at level `stop`.
pub open spec fn block(stop: nat, k: int) -> u64 {
    (k * span(stop + 1)) as u64
}

/// Tables at level `stop` that are missing for `n` blocks from `first` on.
pub open spec fn absent_tables(t: Tables, stop: nat, first: int, n: int) -> int
    decreases n,
{
    if n <= 0 {
        0
    } else {
        absent_tables(t, stop, first, n - 1) + if t.way(stop, block(stop, first + n - 1)) is Reached {
            0int
        } else {
            1int
        }
    }
}

/// Tables at level `stop` that are missing between two addresses.
pub open spec fn lacking(t: Tables, stop: nat, lo: int, hi: int) -> int {
    absent_tables(
        t,
        stop,
        lo / span(stop + 1),
        (hi - 1) / span(stop + 1) - lo / span(stop + 1) + 1,
    )
}

/// Tables down to `level` that are missing between two addresses.
pub open spec fn need(t: Tables, level: nat, lo: int, hi: int) -> int {
    (if level == 0 {
        lacking(t, 0, lo, hi)
    } else {
        0
    }) + lacking(t, 1, lo, hi) + lacking(t, 2, lo, hi)
}

/// Tables the pool can hand out beyond those.
pub open spec fn spare(t: Tables, level: nat, lo: int, hi: int) -> int {
    t.free() - need(t, level, lo, hi)
}

proof fn same_block(v: int, d: int, m: int)
    requires
        v >= 0,
        d > 0,
        m > 0,
    ensures
        0 <= v / d * d <= v,
        (v / d * d) % (d * m) / d == v % (d * m) / d,
{
    let w = v / d * d;
    vstd::arithmetic::div_mod::lemma_fundamental_div_mod(v, d);
    vstd::arithmetic::mul::lemma_mul_is_commutative(v / d, d);
    vstd::arithmetic::div_mod::lemma_mod_bound(v, d);
    vstd::arithmetic::div_mod::lemma_div_pos_is_pos(v, d);
    vstd::arithmetic::mul::lemma_mul_nonnegative(v / d, d);
    vstd::arithmetic::div_mod::lemma_mod_breakdown(v, d, m);
    vstd::arithmetic::div_mod::lemma_mod_breakdown(w, d, m);
    vstd::arithmetic::div_mod::lemma_div_by_multiple(v / d, d);
    vstd::arithmetic::div_mod::lemma_mod_multiples_basic(v / d, d);
    let rest = (v / d) % m;
    vstd::arithmetic::div_mod::lemma_div_multiples_vanish_fancy(rest, v % d, d);
    vstd::arithmetic::div_mod::lemma_div_multiples_vanish_fancy(rest, 0, d);
}

/// Every address of a block selects the same table.
pub proof fn way_of_block(t: Tables, stop: nat, v: u64)
    requires
        stop <= 2,
    ensures
        t.way(stop, block(stop, v as int / span(stop + 1))) == t.way(stop, v),
{
    let d = span(stop + 1);
    let w = block(stop, v as int / d);
    if stop == 0 {
        same_block(v as int, d, 0x800_0000);
        assert(d * 0x800_0000 == 0x1_0000_0000_0000);
    } else if stop == 1 {
        same_block(v as int, d, 0x4_0000);
        assert(d * 0x4_0000 == 0x1_0000_0000_0000);
    } else {
        same_block(v as int, d, 0x200);
        assert(d * 0x200 == 0x1_0000_0000_0000);
    }
    assert(prefix_of(w, stop) == prefix_of(v, stop));
    descend_together(
        t.pool_spec().base_spec() as int,
        t.pool_spec().contents(),
        0,
        3,
        stop,
        w,
        v,
    );
}

/// Growing tables lack no more than before.
pub proof fn growing_lacks_less(before: Tables, after: Tables, stop: nat, first: int, n: int)
    requires
        stop <= 2,
        after.reaches(before),
    ensures
        0 <= absent_tables(after, stop, first, n) <= absent_tables(before, stop, first, n),
    decreases n,
{
    if n > 0 {
        growing_lacks_less(before, after, stop, first, n - 1);
        let v = block(stop, first + n - 1);
        assert(before.way(stop, v) is Reached ==> after.way(stop, v) is Reached);
    }
}

/// A table that was made is lacking no longer.
proof fn made_lacks_less(
    before: Tables,
    after: Tables,
    stop: nat,
    first: int,
    n: int,
    k: int,
)
    requires
        stop <= 2,
        after.reaches(before),
        first <= k < first + n,
        !(before.way(stop, block(stop, k)) is Reached),
        after.way(stop, block(stop, k)) is Reached,
    ensures
        absent_tables(after, stop, first, n) <= absent_tables(before, stop, first, n) - 1,
    decreases n,
{
    if k == first + n - 1 {
        growing_lacks_less(before, after, stop, first, n - 1);
    } else {
        made_lacks_less(before, after, stop, first, n - 1, k);
        let v = block(stop, first + n - 1);
        assert(before.way(stop, v) is Reached ==> after.way(stop, v) is Reached);
    }
}

/// A missing table is counted.
proof fn lacking_counts(t: Tables, stop: nat, first: int, n: int, k: int)
    requires
        stop <= 2,
        first <= k < first + n,
        !(t.way(stop, block(stop, k)) is Reached),
    ensures
        absent_tables(t, stop, first, n) >= 1,
    decreases n,
{
    growing_lacks_less(t, t, stop, first, n - 1);
    if k < first + n - 1 {
        lacking_counts(t, stop, first, n - 1, k);
    }
}

/// One if a table at `stop` is missing on the way of `v`.
pub open spec fn lacks(t: Tables, stop: nat, v: u64) -> int {
    if t.way(stop, v) is Reached {
        0
    } else {
        1
    }
}

/// The tables missing on the way of an address are those at the levels that are
/// not reached.
proof fn missing_is_what_is_lacking(t: Tables, level: nat, v: u64)
    requires
        level <= 1,
        !(t.way(level, v) is Large),
    ensures
        t.missing(level, v) == (if level == 0 {
            lacks(t, 0, v)
        } else {
            0
        }) + lacks(t, 1, v) + lacks(t, 2, v),
        t.way(level, v) is Reached ==> t.way(1, v) is Reached && t.way(2, v) is Reached,
{
    reveal_with_fuel(descend, 5);
}

proof fn in_blocks(stop: nat, v: u64, lo: int, hi: int)
    requires
        stop <= 2,
        0 <= lo <= v < hi,
    ensures
        ({
            let first = lo / span(stop + 1);
            let n = (hi - 1) / span(stop + 1) - first + 1;
            first <= v as int / span(stop + 1) < first + n
        }),
{
    let d = span(stop + 1);
    vstd::arithmetic::div_mod::lemma_div_is_ordered(lo, v as int, d);
    vstd::arithmetic::div_mod::lemma_div_is_ordered(v as int, hi - 1, d);
}

proof fn one_level(before: Tables, after: Tables, stop: nat, v: u64, lo: int, hi: int)
    requires
        stop <= 2,
        0 <= lo <= v < hi,
        after.reaches(before),
        after.way(stop, v) is Reached,
    ensures
        lacking(after, stop, lo, hi) <= lacking(before, stop, lo, hi) - lacks(before, stop, v),
{
    let first = lo / span(stop + 1);
    let n = (hi - 1) / span(stop + 1) - first + 1;
    way_of_block(before, stop, v);
    way_of_block(after, stop, v);
    in_blocks(stop, v, lo, hi);
    growing_lacks_less(before, after, stop, first, n);
    if !(before.way(stop, v) is Reached) {
        made_lacks_less(before, after, stop, first, n, v as int / span(stop + 1));
    }
}

/// Mapping a page of a range takes no more tables than the range was counted to
/// need for it.
pub proof fn mapping_spares(
    before: Tables,
    after: Tables,
    level: nat,
    v: u64,
    lo: int,
    hi: int,
)
    requires
        level <= 1,
        0 <= lo <= v < hi,
        after.reaches(before),
        after.way(level, v) is Reached,
        !(before.way(level, v) is Large),
        after.free() == before.free() - before.missing(level, v),
    ensures
        spare(after, level, lo, hi) >= spare(before, level, lo, hi),
{
    missing_is_what_is_lacking(before, level, v);
    missing_is_what_is_lacking(after, level, v);
    if level == 0 {
        one_level(before, after, 0, v, lo, hi);
    }
    one_level(before, after, 1, v, lo, hi);
    one_level(before, after, 2, v, lo, hi);
}

/// A page of a range misses no more tables than the range was counted to need.
pub proof fn missing_is_counted(t: Tables, level: nat, v: u64, lo: int, hi: int)
    requires
        level <= 1,
        0 <= lo <= v < hi,
        !(t.way(level, v) is Large),
    ensures
        t.missing(level, v) <= need(t, level, lo, hi),
{
    missing_is_what_is_lacking(t, level, v);
    assert forall|stop: nat| stop <= 2 implies #[trigger] lacking(t, stop, lo, hi) >= lacks(
        t,
        stop,
        v,
    ) by {
        let first = lo / span(stop + 1);
        let n = (hi - 1) / span(stop + 1) - first + 1;
        way_of_block(t, stop, v);
        in_blocks(stop, v, lo, hi);
        growing_lacks_less(t, t, stop, first, n);
        if !(t.way(stop, v) is Reached) {
            lacking_counts(t, stop, first, n, v as int / span(stop + 1));
        }
    }
    assert(lacking(t, 0, lo, hi) >= lacks(t, 0, v));
    assert(lacking(t, 1, lo, hi) >= lacks(t, 1, v));
    assert(lacking(t, 2, lo, hi) >= lacks(t, 2, v));
}

/// No range lacks more tables than it has blocks.
pub proof fn lacking_is_bounded(t: Tables, stop: nat, first: int, n: int)
    requires
        n >= 0,
    ensures
        0 <= absent_tables(t, stop, first, n) <= n,
    decreases n,
{
    if n > 0 {
        lacking_is_bounded(t, stop, first, n - 1);
    }
}

} // verus!
