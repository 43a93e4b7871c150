//! What the operations are for, said without their machinery: each law relates
//! what went in to what came out, in the fields of the tables alone.

use vstd::prelude::*;

pub mod authority;
pub mod boot;
pub mod calls;
pub mod devices;
pub mod domains;
pub mod entries;
pub mod events;
pub mod formats;
pub mod images;
pub mod kernel;
pub mod memory;
pub mod messages;
pub mod objects;
pub mod obligations;
pub mod platform;
pub mod programs;
pub mod receipts;
pub mod retirement;
pub mod scopes;
pub mod supervisor;

verus! {

/// How many of the first `n` numbers have a property.
pub open spec fn how_many(f: spec_fn(int) -> bool, n: int) -> nat
    decreases n,
{
    if n <= 0 {
        0
    } else {
        how_many(f, n - 1) + if f(n - 1) {
            1nat
        } else {
            0nat
        }
    }
}

/// Properties that agree on the first `n` numbers are counted alike.
pub proof fn counted_alike(f: spec_fn(int) -> bool, g: spec_fn(int) -> bool, n: int)
    requires
        forall|i: int| 0 <= i < n ==> #[trigger] f(i) == g(i),
    ensures
        how_many(f, n) == how_many(g, n),
    decreases n,
{
    if n > 0 {
        counted_alike(f, g, n - 1);
        assert(f(n - 1) == g(n - 1));
    }
}

} // verus!
