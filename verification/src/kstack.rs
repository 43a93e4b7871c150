//! Kernel stacks: where they lie, and what a slot that is taken or free maps.
//!
//! The lowest page of a slot stays unmapped as a guard: an overflow faults on it
//! instead of writing into the slot below.

use vstd::prelude::*;

use crate::arch::x86_64::paging::leaf_bits;
use crate::layout::{KSTACK_AREA, KSTACK_PAGES, KSTACK_SLOT_BYTES};
use crate::limits::MAX_THREADS;
use crate::mm::Frame;
use crate::page_table::{lookup, same_page, target, upper_pages_are_apart, Page, UPPER_HALF};
use crate::spaces::{is_dynamic, kernel_data};

verus! {

/// Page `page` of a kernel stack slot, counted from above its guard page, which
/// is page minus one.
pub open spec fn stack_page(slot: int, page: int) -> u64 {
    (KSTACK_AREA + slot * KSTACK_SLOT_BYTES + 0x1000 + page * 0x1000) as u64
}

/// First address above a kernel stack.
pub open spec fn stack_top(slot: int) -> u64 {
    (KSTACK_AREA + slot * KSTACK_SLOT_BYTES + KSTACK_SLOT_BYTES) as u64
}

/// What the translation of a stack page owes: in a slot that is taken, a page
/// of kernel data; in a free one, nothing.
pub open spec fn stack_entry_ok(found: Option<(nat, u64)>, taken: bool) -> bool {
    if taken {
        found matches Some((level, e)) && level == 0 && e == target(e) | leaf_bits(kernel_data())
    } else {
        found is None
    }
}

/// A kernel stack slot that is taken has its pages and an unmapped guard below
/// them; no page of a free one translates.
pub open spec fn stack_ok(mem: Seq<Page>, root: int, slot: int, taken: bool) -> bool {
    &&& lookup(0, mem, root, 3, stack_page(slot, -1)) is None
    &&& forall|page: int|
        0 <= page < KSTACK_PAGES ==> stack_entry_ok(
            lookup(0, mem, root, 3, #[trigger] stack_page(slot, page)),
            taken,
        )
}

/// Every kernel stack slot but `but` is as its mark says.
#[verifier::opaque]
pub open spec fn stacks_ok(
    mem: Seq<Page>,
    kernel: Option<Frame>,
    kstacks: Seq<bool>,
    but: int,
) -> bool {
    kernel matches Some(f) ==> forall|slot: int|
        0 <= slot < MAX_THREADS && slot != but ==> #[trigger] stack_ok(
            mem,
            f.number as int,
            slot,
            kstacks[slot],
        )
}

/// `w` lies in one of the lowest `n` stack pages of a slot.
pub open spec fn in_stack(w: u64, slot: int, n: int) -> bool {
    exists|page: int| 0 <= page < n && #[trigger] same_page(w, stack_page(slot, page), 0)
}

/// `v` is in no page of a kernel stack slot, guards included, but perhaps in
/// slot `but`.
pub open spec fn is_off_stacks(v: u64, but: int) -> bool {
    forall|slot: int, page: int|
        0 <= slot < MAX_THREADS && slot != but && -1 <= page < KSTACK_PAGES ==> !same_page(
            #[trigger] stack_page(slot, page),
            v,
            0,
        )
}

/// The pages of a kernel stack slot are the kernel's own.
pub proof fn stack_pages_are_dynamic(slot: int, page: int)
    requires
        0 <= slot < MAX_THREADS,
        -1 <= page < KSTACK_PAGES,
    ensures
        stack_page(slot, page) == KSTACK_AREA + slot * 0x5000 + 0x1000 + page * 0x1000,
        is_dynamic(stack_page(slot, page)),
        stack_page(slot, page) >= UPPER_HALF,
{
    assert(KSTACK_SLOT_BYTES == 0x5000);
    let v = KSTACK_AREA + slot * 0x5000 + 0x1000 + page * 0x1000;
    assert(KSTACK_AREA == 0xFFFF_8080_0020_0000);
    assert(0xFFFF_8080_0020_0000 <= v < 0xFFFF_8080_0040_0000);
    assert(v / 0x80_0000_0000 == 0x1FF_FF01);
    assert(0x1FF_FF01int % 512 == 257);
}

/// Different pages of kernel stacks hold different addresses.
pub proof fn stack_pages_are_apart(a: int, i: int, b: int, j: int)
    requires
        0 <= a < MAX_THREADS,
        0 <= b < MAX_THREADS,
        -1 <= i < KSTACK_PAGES,
        -1 <= j < KSTACK_PAGES,
        a != b || i != j,
    ensures
        !same_page(stack_page(a, i), stack_page(b, j), 0),
{
    stack_pages_are_dynamic(a, i);
    stack_pages_are_dynamic(b, j);
    upper_pages_are_apart(stack_page(a, i), stack_page(b, j));
}

/// A stack page touches no other slot.
pub proof fn stack_page_is_off_others(slot: int, page: int)
    requires
        0 <= slot < MAX_THREADS,
        -1 <= page < KSTACK_PAGES,
    ensures
        is_off_stacks(stack_page(slot, page), slot),
{
    assert forall|s: int, p: int|
        0 <= s < MAX_THREADS && s != slot && -1 <= p < KSTACK_PAGES implies !same_page(
        #[trigger] stack_page(s, p),
        stack_page(slot, page),
        0,
    ) by {
        stack_pages_are_apart(s, p, slot, page);
    }
}

/// Slots stay as they are where what the kernel maps at them does.
pub proof fn stacks_stay(
    before: Seq<Page>,
    after: Seq<Page>,
    kernel: Option<Frame>,
    kstacks: Seq<bool>,
    but: int,
)
    requires
        stacks_ok(before, kernel, kstacks, but),
        kernel matches Some(f) ==> forall|slot: int, page: int|
            0 <= slot < MAX_THREADS && slot != but && -1 <= page < KSTACK_PAGES ==> lookup(
                0,
                after,
                f.number as int,
                3,
                #[trigger] stack_page(slot, page),
            ) == lookup(0, before, f.number as int, 3, stack_page(slot, page)),
    ensures
        stacks_ok(after, kernel, kstacks, but),
{
    reveal(stacks_ok);
    if kernel is Some {
        let root = (kernel->0).number as int;
        assert forall|slot: int| 0 <= slot < MAX_THREADS && slot != but implies #[trigger] stack_ok(
            after,
            root,
            slot,
            kstacks[slot],
        ) by {
            assert(stack_ok(before, root, slot, kstacks[slot]));
            let guard = stack_page(slot, -1);
            assert forall|page: int| 0 <= page < KSTACK_PAGES implies stack_entry_ok(
                lookup(0, after, root, 3, #[trigger] stack_page(slot, page)),
                kstacks[slot],
            ) by {}
        }
    }
}

} // verus!
