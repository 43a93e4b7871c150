//! Four-level page tables as mathematical objects.
//!
//! A store of page tables is a sequence of pages of 512 entries each, the first
//! of them at physical address `base`. Each page that serves as a table carries
//! a *label*: its level, and the part of a virtual address that leads to it.
//! The one invariant is that a present entry which is not a large page leads to
//! the table whose label continues its own. From it follows that writing an
//! entry changes the translation of no address but those the entry covers.

use vstd::arithmetic::div_mod::{
    lemma_div_denominator, lemma_fundamental_div_mod, lemma_hoist_over_denominator,
    lemma_mod_multiples_vanish,
};
use vstd::prelude::*;

verus! {

/// Entries in one table.
pub const ENTRIES: usize = 512;

/// Entry flag: present.
pub const PRESENT: u64 = 1;

/// Entry flag: writable.
pub const WRITABLE: u64 = 2;

/// Entry flag: reachable from ring 3.
pub const USER: u64 = 4;

/// Entry flag: write through.
pub const WRITE_THROUGH: u64 = 8;

/// Entry flag: cache disabled.
pub const CACHE_DISABLE: u64 = 16;

/// Entry flag: large page, above the lowest level.
pub const HUGE: u64 = 128;

/// Entry flag: not executable.
pub const NO_EXECUTE: u64 = 0x8000_0000_0000_0000;

/// Bits of an entry that hold an address.
pub const ADDRESS_MASK: u64 = 0x000F_FFFF_FFFF_F000;

/// Number of virtual addresses one hierarchy tells apart.
pub const VIRTUAL_SPAN: u64 = 0x1_0000_0000_0000;

/// Where the upper half of the addresses starts.
pub const UPPER_HALF: u64 = 0xFFFF_8000_0000_0000;

/// One page holding a table.
pub type Page = [u64; 512];

/// Bytes that one entry of a table at `level` covers.
pub open spec fn span(level: nat) -> int {
    if level == 0 {
        0x1000
    } else if level == 1 {
        0x20_0000
    } else if level == 2 {
        0x4000_0000
    } else if level == 3 {
        0x80_0000_0000
    } else {
        0x1_0000_0000_0000
    }
}

/// The entry that `v` selects in a table at `level`.
pub open spec fn slot_of(v: u64, level: nat) -> int {
    (v as int / span(level)) % 512
}

/// The part of `v` that leads to its table at `level`.
pub open spec fn prefix_of(v: u64, level: nat) -> int {
    (v as int % VIRTUAL_SPAN as int) / span(level + 1)
}

/// `v` and `w` lie in the same page of the size an entry at `level` covers.
pub open spec fn same_page(v: u64, w: u64, level: nat) -> bool {
    prefix_of(v, level) == prefix_of(w, level) && slot_of(v, level) == slot_of(w, level)
}

/// The entry is present.
pub open spec fn present(e: u64) -> bool {
    e & PRESENT != 0
}

/// The entry is a large page.
pub open spec fn large(e: u64) -> bool {
    e & HUGE != 0
}

/// The address the entry holds.
pub open spec fn target(e: u64) -> u64 {
    e & ADDRESS_MASK
}

/// Position in the store of the table an entry leads to.
pub open spec fn child_of(base: int, e: u64) -> int {
    (target(e) - base) / 0x1000
}

/// An interior entry takes away neither writing nor execution: what a page
/// permits is decided where its walk ends.
pub open spec fn is_open(e: u64) -> bool {
    e & WRITABLE != 0 && e & NO_EXECUTE == 0
}

/// Every interior entry on the way of `v` from table `t` at `level` is open and,
/// if asked, permits user access.
pub open spec fn way_is_open(
    base: int,
    mem: Seq<Page>,
    t: int,
    level: nat,
    v: u64,
    user: bool,
) -> bool
    decreases level,
{
    let e = mem[t]@[slot_of(v, level)];
    level == 0 || !present(e) || large(e) || {
        &&& is_open(e)
        &&& user ==> e & USER != 0
        &&& way_is_open(base, mem, child_of(base, e), (level - 1) as nat, v, user)
    }
}

/// In consistent tables every way is open.
pub proof fn ways_are_open(base: int, mem: Seq<Page>, labels: Seq<Label>, t: int, level: nat, v: u64)
    requires
        consistent(base, mem, labels),
        level <= 3,
        0 <= t < mem.len(),
        labels[t] == Some((level, prefix_of(v, level))),
    ensures
        way_is_open(base, mem, t, level, v, false),
    decreases level,
{
    let s = slot_of(v, level);
    let e = mem[t]@[s];
    assert(0 <= s < 512);
    if level > 0 && present(e) && !large(e) {
        assert(entry_ok(base, labels, labels[t], s, mem[t]@[s]));
        prefix_continues(v, level);
        ways_are_open(base, mem, labels, child_of(base, e), (level - 1) as nat, v);
    }
}

/// Level and prefix of a table.
pub type Label = Option<(nat, int)>;

/// What an entry of a table labelled `label` at position `s` owes.
pub open spec fn entry_ok(base: int, labels: Seq<Label>, label: Label, s: int, e: u64) -> bool {
    match label {
        Some((level, prefix)) => level > 0 && present(e) && (level >= 3 || !large(e)) ==> {
            &&& !large(e)
            &&& is_open(e)
            &&& target(e) >= base
            &&& (target(e) - base) % 0x1000 == 0
            &&& 0 <= child_of(base, e) < labels.len()
            &&& labels[child_of(base, e)] == Some(((level - 1) as nat, prefix * 512 + s))
        },
        None => true,
    }
}

/// Every entry of every table owes what [`entry_ok`] says.
pub open spec fn consistent(base: int, mem: Seq<Page>, labels: Seq<Label>) -> bool {
    &&& labels.len() == mem.len()
    &&& forall|t: int, s: int|
        0 <= t < mem.len() && 0 <= s < 512 ==> entry_ok(
            base,
            labels,
            labels[t],
            s,
            #[trigger] mem[t]@[s],
        )
}

/// The translation of `v` from table `t` at `level`: the level of the entry that
/// ends the walk, and that entry; nothing when the walk meets an absent one.
pub open spec fn lookup(base: int, mem: Seq<Page>, t: int, level: nat, v: u64) -> Option<
    (nat, u64),
>
    decreases level,
{
    let e = mem[t]@[slot_of(v, level)];
    if !present(e) {
        None
    } else if level == 0 || large(e) {
        Some((level, e))
    } else {
        lookup(base, mem, child_of(base, e), (level - 1) as nat, v)
    }
}

/// How far a walk towards a table at a given level comes.
pub enum Step {
    /// The entry at this level is absent.
    Missing(nat),
    /// The entry at this level is a large page.
    Large(nat),
    /// The walk arrives at this table.
    Reached(int),
}

/// The walk for `v` from table `t` at `level` down to the table at `stop`.
pub open spec fn descend(
    base: int,
    mem: Seq<Page>,
    t: int,
    level: nat,
    stop: nat,
    v: u64,
) -> Step
    decreases level,
{
    let e = mem[t]@[slot_of(v, level)];
    if level <= stop {
        Step::Reached(t)
    } else if !present(e) {
        Step::Missing(level)
    } else if large(e) {
        Step::Large(level)
    } else {
        descend(base, mem, child_of(base, e), (level - 1) as nat, stop, v)
    }
}

/// Prefixes continue each other: below the entry that `v` selects at `level`
/// lies the table that `v` selects one level down.
pub proof fn prefix_continues(v: u64, level: nat)
    requires
        1 <= level <= 3,
    ensures
        prefix_of(v, level) * 512 + slot_of(v, level) == prefix_of(v, (level - 1) as nat),
        0 <= slot_of(v, level) < 512,
{
    let whole = v as int / 0x1_0000_0000_0000;
    let w = v as int % 0x1_0000_0000_0000;
    let s = span(level);
    let above = if level == 1 {
        0x800_0000
    } else if level == 2 {
        0x4_0000
    } else {
        512int
    };
    assert(0x1_0000_0000_0000 == above * s);
    assert(v as int == w + (whole * above) * s) by (nonlinear_arith)
        requires
            v as int == 0x1_0000_0000_0000 * whole + w,
            0x1_0000_0000_0000 == above * s,
    ;
    lemma_hoist_over_denominator(w, whole * above, s as nat);
    let k = above / 512;
    assert(whole * above == 512 * (whole * k)) by (nonlinear_arith)
        requires
            above == 512 * k,
    ;
    lemma_mod_multiples_vanish(whole * k, w / s, 512);
    lemma_div_denominator(w, s, 512);
    lemma_fundamental_div_mod(w / s, 512);
}

/// Every address leads to the root.
pub proof fn root_prefix(v: u64)
    ensures
        prefix_of(v, 3) == 0,
{
}

/// A table that is not visited on the way of `v`, or whose changed entry `v`
/// does not select, can change without changing the translation of `v`.
pub proof fn lookup_unchanged(
    base: int,
    mem: Seq<Page>,
    labels: Seq<Label>,
    t: int,
    level: nat,
    v: u64,
    at: int,
    s: int,
    e: u64,
    next: Seq<Page>,
)
    requires
        consistent(base, mem, labels),
        level <= 3,
        0 <= t < mem.len(),
        labels[t] == Some((level, prefix_of(v, level))),
        0 <= at < mem.len(),
        0 <= s < 512,
        next.len() == mem.len(),
        forall|i: int| 0 <= i < mem.len() && i != at ==> next[i] == mem[i],
        next[at]@ == mem[at]@.update(s, e),
        labels[at] matches Some((l, p)) && !(p == prefix_of(v, l) && s == slot_of(v, l)),
    ensures
        lookup(base, next, t, level, v) == lookup(base, mem, t, level, v),
    decreases level,
{
    let here = mem[t]@[slot_of(v, level)];
    assert(0 <= slot_of(v, level) < 512);
    assert(next[t]@[slot_of(v, level)] == here);
    if present(here) && level > 0 && !large(here) {
        assert(entry_ok(base, labels, labels[t], slot_of(v, level), mem[t]@[slot_of(v, level)]));
        prefix_continues(v, level);
        lookup_unchanged(
            base,
            mem,
            labels,
            child_of(base, here),
            (level - 1) as nat,
            v,
            at,
            s,
            e,
            next,
        );
    }
}

/// A table with no present entry translates nothing.
pub proof fn lookup_in_empty(base: int, mem: Seq<Page>, t: int, level: nat, v: u64)
    requires
        forall|s: int| 0 <= s < 512 ==> !present(#[trigger] mem[t]@[s]),
    ensures
        lookup(base, mem, t, level, v) is None,
{
    assert(0 <= slot_of(v, level) < 512);
}

/// Hanging an empty table below an absent entry changes no translation.
pub proof fn lookup_with_new_table(
    base: int,
    mem: Seq<Page>,
    labels: Seq<Label>,
    t: int,
    level: nat,
    v: u64,
    at: int,
    s: int,
    next: Seq<Page>,
    fresh: int,
)
    requires
        consistent(base, mem, labels),
        level <= 3,
        0 <= t < mem.len(),
        labels[t] == Some((level, prefix_of(v, level))),
        0 <= at < mem.len(),
        0 <= s < 512,
        0 <= fresh < mem.len(),
        labels[fresh] is None,
        labels[at] is Some,
        (labels[at]->0).0 > 0,
        !present(mem[at]@[s]),
        next.len() == mem.len(),
        forall|i: int| 0 <= i < mem.len() && i != at && i != fresh ==> next[i] == mem[i],
        forall|i: int| 0 <= i < 512 && i != s ==> next[at]@[i] == mem[at]@[i],
        forall|i: int| 0 <= i < 512 ==> !present(#[trigger] next[fresh]@[i]),
        present(next[at]@[s]),
        !large(next[at]@[s]),
        child_of(base, next[at]@[s]) == fresh,
    ensures
        lookup(base, next, t, level, v) == lookup(base, mem, t, level, v),
    decreases level,
{
    let slot = slot_of(v, level);
    let here = mem[t]@[slot];
    assert(0 <= slot < 512);
    if t == at && slot == s {
        lookup_in_empty(base, next, fresh, (level - 1) as nat, v);
        assert(labels[at] == Some((level, prefix_of(v, level))));
    } else {
        assert(next[t]@[slot] == here);
        if present(here) && level > 0 && !large(here) {
            assert(entry_ok(base, labels, labels[t], slot, mem[t]@[slot]));
            prefix_continues(v, level);
            lookup_with_new_table(
                base,
                mem,
                labels,
                child_of(base, here),
                (level - 1) as nat,
                v,
                at,
                s,
                next,
                fresh,
            );
        }
    }
}

/// Where no present entry changes, every table that was reached still is.
pub proof fn reached_stays(
    base: int,
    mem: Seq<Page>,
    labels: Seq<Label>,
    t: int,
    level: nat,
    stop: nat,
    v: u64,
    next: Seq<Page>,
)
    requires
        consistent(base, mem, labels),
        stop <= level <= 3,
        0 <= t < mem.len(),
        labels[t] == Some((level, prefix_of(v, level))),
        next.len() == mem.len(),
        forall|i: int, s: int|
            0 <= i < mem.len() && 0 <= s < 512 && present(mem[i]@[s]) ==> #[trigger] next[i]@[s]
                == mem[i]@[s],
        descend(base, mem, t, level, stop, v) is Reached,
    ensures
        descend(base, next, t, level, stop, v) == descend(base, mem, t, level, stop, v),
    decreases level,
{
    if level > stop {
        let slot = slot_of(v, level);
        let here = mem[t]@[slot];
        assert(0 <= slot < 512);
        assert(next[t]@[slot] == here);
        assert(entry_ok(base, labels, labels[t], slot, mem[t]@[slot]));
        prefix_continues(v, level);
        reached_stays(
            base,
            mem,
            labels,
            child_of(base, here),
            (level - 1) as nat,
            stop,
            v,
            next,
        );
    }
}

/// Where one absent entry becomes a large page, or leads to an empty table that
/// is not of the lowest level, no table of the lowest level is newly reached.
pub proof fn no_new_lowest_table(
    base: int,
    mem: Seq<Page>,
    labels: Seq<Label>,
    t: int,
    level: nat,
    v: u64,
    next: Seq<Page>,
    at: int,
    s: int,
)
    requires
        consistent(base, mem, labels),
        level <= 3,
        0 <= t < mem.len(),
        labels[t] == Some((level, prefix_of(v, level))),
        next.len() == mem.len(),
        forall|i: int, k: int|
            0 <= i < mem.len() && labels[i] is Some && 0 <= k < 512 && !(i == at && k == s)
                ==> #[trigger] next[i]@[k] == mem[i]@[k],
        labels[at] matches Some((l, _)) && {
            ||| large(next[at]@[s])
            ||| l >= 2 && forall|k: int|
                0 <= k < 512 ==> !present(
                    #[trigger] next[child_of(base, next[at]@[s])]@[k],
                )
        },
        descend(base, next, t, level, 0, v) is Reached,
    ensures
        descend(base, mem, t, level, 0, v) is Reached,
    decreases level,
{
    if level > 0 {
        let slot = slot_of(v, level);
        assert(0 <= slot < 512);
        if t == at && slot == s {
            let below = child_of(base, next[at]@[s]);
            assert(0 <= slot_of(v, (level - 1) as nat) < 512);
            assert(!large(next[at]@[s]));
            assert(!present(next[below]@[slot_of(v, (level - 1) as nat)]));
            assert(descend(base, next, below, (level - 1) as nat, 0, v) is Missing);
        } else {
            let here = mem[t]@[slot];
            assert(next[t]@[slot] == here);
            assert(entry_ok(base, labels, labels[t], slot, mem[t]@[slot]));
            prefix_continues(v, level);
            no_new_lowest_table(
                base,
                mem,
                labels,
                child_of(base, here),
                (level - 1) as nat,
                v,
                next,
                at,
                s,
            );
        }
    }
}

/// The bits of an entry that leads to the table at `child`.
pub proof fn table_entry_bits(child: u64, flags: u64)
    requires
        child % 0x1000 == 0,
        child < 0x10_0000_0000_0000,
        flags < 0x80,
        flags & PRESENT != 0,
    ensures
        present(child | flags),
        !large(child | flags),
        target(child | flags) == child,
        flags & WRITABLE != 0 ==> is_open(child | flags),
        (child | flags) & NO_EXECUTE == 0,
        (child | flags) & USER == flags & USER,
{
    assert((child | flags) & 1 != 0 && (child | flags) & 128 == 0 && (child | flags)
        & 0x000F_FFFF_FFFF_F000 == child && (child | flags) & 2 == flags & 2 && (child | flags) & 4
        == flags & 4 && (child | flags) & 0x8000_0000_0000_0000 == 0) by (bit_vector)
        requires
            child % 0x1000 == 0,
            child < 0x10_0000_0000_0000,
            flags < 0x80,
            flags & 1 != 0,
    ;
}

/// The entry that `v` selects in a table at `level`.
pub fn slot(v: u64, level: u32) -> (index: usize)
    requires
        level <= 3,
    ensures
        index == slot_of(v, level as nat),
        index < 512,
{
    let covered: u64 = if level == 0 {
        0x1000
    } else if level == 1 {
        0x20_0000
    } else if level == 2 {
        0x4000_0000
    } else {
        0x80_0000_0000
    };
    ((v / covered) % 512) as usize
}

/// The bits of an entry that ends a walk.
pub proof fn leaf_entry_bits(content: u64)
    ensures
        present(content | PRESENT),
        present(content | HUGE | PRESENT),
        large(content | HUGE | PRESENT),
{
    assert((content | 1) & 1 != 0 && (content | 128 | 1) & 1 != 0 && (content | 128 | 1) & 128
        != 0) by (bit_vector);
}

/// A zero entry is absent.
pub proof fn zero_entry_bits()
    ensures
        !present(0),
{
    assert(0u64 & 1 == 0) by (bit_vector);
}

/// What the walk to a table says about the translation.
pub proof fn descend_and_lookup(base: int, mem: Seq<Page>, t: int, level: nat, stop: nat, v: u64)
    requires
        stop <= level,
    ensures
        match descend(base, mem, t, level, stop, v) {
            Step::Missing(l) => {
                &&& stop < l <= level
                &&& lookup(base, mem, t, level, v) is None
            },
            Step::Large(l) => {
                &&& stop < l <= level
                &&& lookup(base, mem, t, level, v) matches Some((at, e)) && at == l && large(e)
            },
            Step::Reached(r) => lookup(base, mem, t, level, v) == lookup(base, mem, r, stop, v),
        },
    decreases level,
{
    let e = mem[t]@[slot_of(v, level)];
    if level > stop && present(e) && !large(e) {
        descend_and_lookup(base, mem, child_of(base, e), (level - 1) as nat, stop, v);
    }
}

/// Addresses with one table in common share all the entries above it.
pub proof fn same_prefix_above(v: u64, w: u64, level: nat)
    requires
        1 <= level <= 3,
        prefix_of(v, (level - 1) as nat) == prefix_of(w, (level - 1) as nat),
    ensures
        prefix_of(v, level) == prefix_of(w, level),
        slot_of(v, level) == slot_of(w, level),
{
    prefix_continues(v, level);
    prefix_continues(w, level);
}

/// Addresses that select the same table at `stop` walk to it together.
pub proof fn descend_together(
    base: int,
    mem: Seq<Page>,
    t: int,
    level: nat,
    stop: nat,
    v: u64,
    w: u64,
)
    requires
        stop <= level <= 3,
        prefix_of(v, stop) == prefix_of(w, stop),
    ensures
        descend(base, mem, t, level, stop, v) == descend(base, mem, t, level, stop, w),
        prefix_of(v, level) == prefix_of(w, level),
        level > stop ==> slot_of(v, level) == slot_of(w, level),
    decreases level,
{
    if level > stop {
        let e = mem[t]@[slot_of(v, level)];
        descend_together(base, mem, child_of(base, e), (level - 1) as nat, stop, v, w);
        same_prefix_above(v, w, level);
    }
}

/// Addresses of one page translate alike.
pub proof fn page_walks_alike(base: int, mem: Seq<Page>, t: int, level: nat, v: u64, w: u64)
    requires
        level <= 3,
        same_page(w, v, 0),
    ensures
        lookup(base, mem, t, level, w) == lookup(base, mem, t, level, v),
    decreases level,
{
    descend_together(base, mem, t, level, 0, v, w);
    if level > 0 {
        let e = mem[t]@[slot_of(v, level)];
        page_walks_alike(base, mem, child_of(base, e), (level - 1) as nat, v, w);
    }
}

/// Every address of a page translates to the entry that covers the page.
pub proof fn page_translates(
    base: int,
    mem: Seq<Page>,
    t: int,
    level: nat,
    stop: nat,
    v: u64,
    w: u64,
)
    requires
        stop <= level <= 3,
        same_page(w, v, stop),
        descend(base, mem, t, level, stop, v) matches Step::Reached(r) && present(
            mem[r]@[slot_of(v, stop)],
        ) && (stop == 0 || large(mem[r]@[slot_of(v, stop)])),
    ensures
        descend(base, mem, t, level, stop, v) matches Step::Reached(r) && lookup(
            base,
            mem,
            t,
            level,
            w,
        ) == Some((stop, mem[r]@[slot_of(v, stop)])),
{
    descend_together(base, mem, t, level, stop, v, w);
    descend_and_lookup(base, mem, t, level, stop, w);
}

/// Replacing an interior entry by another that leads to the same table changes
/// no translation.
pub proof fn lookup_same_shape(
    base: int,
    mem: Seq<Page>,
    labels: Seq<Label>,
    t: int,
    level: nat,
    v: u64,
    at: int,
    s: int,
    next: Seq<Page>,
)
    requires
        consistent(base, mem, labels),
        level <= 3,
        0 <= t < mem.len(),
        labels[t] == Some((level, prefix_of(v, level))),
        0 <= at < mem.len(),
        0 <= s < 512,
        next.len() == mem.len(),
        forall|i: int| 0 <= i < mem.len() && i != at ==> next[i] == mem[i],
        next[at]@ == mem[at]@.update(s, next[at]@[s]),
        labels[at] matches Some((l, _)) && l > 0,
        present(mem[at]@[s]) && present(next[at]@[s]),
        !large(mem[at]@[s]) && !large(next[at]@[s]),
        target(mem[at]@[s]) == target(next[at]@[s]),
    ensures
        lookup(base, next, t, level, v) == lookup(base, mem, t, level, v),
    decreases level,
{
    let here = mem[t]@[slot_of(v, level)];
    assert(0 <= slot_of(v, level) < 512);
    if present(here) && level > 0 && !large(here) {
        assert(entry_ok(base, labels, labels[t], slot_of(v, level), mem[t]@[slot_of(v, level)]));
        prefix_continues(v, level);
        lookup_same_shape(
            base,
            mem,
            labels,
            child_of(base, here),
            (level - 1) as nat,
            v,
            at,
            s,
            next,
        );
    }
}

/// Adding the user and the writable flag to an entry leaves where it leads.
pub proof fn widened_entry_bits(e: u64)
    ensures
        present(e | WRITABLE) == present(e),
        large(e | WRITABLE) == large(e),
        target(e | WRITABLE) == target(e),
        present(e | USER | WRITABLE) == present(e),
        large(e | USER | WRITABLE) == large(e),
        target(e | USER | WRITABLE) == target(e),
        (e | WRITABLE) & WRITABLE != 0,
        (e | USER | WRITABLE) & WRITABLE != 0,
        (e | USER | WRITABLE) & USER != 0,
        e & NO_EXECUTE == 0 ==> is_open(e | WRITABLE) && is_open(e | USER | WRITABLE),
        (e | WRITABLE) & USER == e & USER,
{
    assert(((e | 2) & 1 != 0) == (e & 1 != 0) && ((e | 2) & 128 != 0) == (e & 128 != 0) && (e | 2)
        & 0x000F_FFFF_FFFF_F000 == e & 0x000F_FFFF_FFFF_F000 && ((e | 4 | 2) & 1 != 0) == (e & 1
        != 0) && ((e | 4 | 2) & 128 != 0) == (e & 128 != 0) && (e | 4 | 2) & 0x000F_FFFF_FFFF_F000
        == e & 0x000F_FFFF_FFFF_F000 && (e | 2) & 2 != 0 && (e | 4 | 2) & 2 != 0 && (e | 4 | 2)
        & 4 != 0 && (e | 2) & 0x8000_0000_0000_0000 == e & 0x8000_0000_0000_0000 && (e | 4 | 2)
        & 0x8000_0000_0000_0000 == e & 0x8000_0000_0000_0000 && (e | 2) & 4 == e & 4)
        by (bit_vector);
}

/// Numbers less than a period apart differ within it.
pub proof fn apart_within_a_period(a: int, b: int)
    requires
        b < a < b + 0x800_0000,
    ensures
        a % 0x800_0000 != b % 0x800_0000,
{
}

/// Two pages of the upper half are the same only if they start at one address.
pub proof fn upper_pages_are_apart(v: u64, w: u64)
    requires
        v % 0x1000 == 0,
        w % 0x1000 == 0,
        v >= UPPER_HALF,
        w >= UPPER_HALF,
        v != w,
    ensures
        !same_page(v, w, 0),
{
    upper_page_number(v);
    upper_page_number(w);
}

/// The page of an address of the upper half, counted from the lowest one that a
/// hierarchy tells apart.
pub proof fn upper_page_number(v: u64)
    requires
        v >= UPPER_HALF,
    ensures
        prefix_of(v, 0) * 512 + slot_of(v, 0) == (v - 0xFFFF_0000_0000_0000) / 0x1000,
        prefix_of(v, 0) == (v - 0xFFFF_0000_0000_0000) / 0x20_0000,
{
    let low = v - 0xFFFF_0000_0000_0000;
    assert(v as int % 0x1_0000_0000_0000 == low);
    assert(v as int / 0x1000 == low / 0x1000 + 0xF_FFF0_0000_0000);
}

} // verus!
