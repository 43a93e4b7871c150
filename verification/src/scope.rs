//! Scopes: the tree that pays for everything.
//!
//! What a scope uses is charged to it and to every scope above it, so a child
//! never multiplies what its parent was given. A scope is fenced, drains, and
//! is then retired.

use vstd::array::spec_array_fill_for_copy_type;
use vstd::prelude::*;
use vstd::set_lib::{lemma_int_range, lemma_len_subset, set_int_range};

use crate::ctrl::{one_less, one_more};
use crate::limits::MAX_SCOPES;

verus! {

/// Lifecycle of a scope.
#[derive(Clone, Copy, PartialEq, Eq, Debug, Structural)]
pub enum State {
    /// Free table slot.
    Empty,
    /// Accepts work.
    Open,
    /// Closed to new work; obligations remain.
    Fenced,
    /// Closed, and nothing is left to finish.
    Quiescent,
    /// Given up.
    Retired,
}

impl State {
    /// The number [`State::abi`] returns.
    pub open spec fn abi_spec(self) -> u32 {
        match self {
            State::Empty => 0,
            State::Open => 1,
            State::Fenced => 2,
            State::Quiescent => 3,
            State::Retired => 4,
        }
    }

    /// Number reported in a scope descriptor.
    pub fn abi(self) -> (number: u32)
        ensures
            number == self.abi_spec(),
    {
        match self {
            State::Empty => 0,
            State::Open => 1,
            State::Fenced => 2,
            State::Quiescent => 3,
            State::Retired => 4,
        }
    }
}

/// Resources that are charged along the tree.
#[derive(Clone, Copy, PartialEq, Eq, Debug, Structural)]
pub enum Resource {
    /// Pages of memory.
    MemoryPages,
    /// Kernel records: objects, grants and capability slots.
    Metadata,
    /// Bytes of queued messages.
    QueueBytes,
}

/// Ceilings of a scope.
#[derive(Clone, Copy, PartialEq, Eq, Debug, Structural)]
pub struct Limits {
    /// Pages of memory.
    pub memory_pages: u64,
    /// Kernel records.
    pub metadata_objects: u64,
    /// Processor time per window.
    pub cpu_budget_ns: u64,
    /// Bytes of queued messages.
    pub queue_bytes: u64,
    /// Time set aside for closing.
    pub closure_reserve_ns: u64,
    /// Threads that may run at once.
    pub parallelism: u32,
}

/// One scope.
#[derive(Clone, Copy, Debug)]
pub struct Scope {
    /// Lifecycle state.
    pub state: State,
    /// Generation of this table slot.
    pub generation: u32,
    /// Diagnostic identity.
    pub id: u64,
    /// Scope above, or none for the root.
    pub parent: Option<u16>,
    /// Distance from the root.
    pub depth: u32,
    /// Diagnostic label.
    pub label: [u8; 16],
    /// Ceilings.
    pub limits: Limits,
    /// Pages charged here and below.
    pub memory_pages: u64,
    /// Kernel records charged here and below.
    pub metadata: u64,
    /// Bytes of queued messages charged here and below.
    pub queue_bytes: u64,
    /// Scopes directly below.
    pub children: u32,
    /// Capability entries naming this scope.
    pub refs: u32,
    /// Threads that belong to this scope.
    pub threads: u32,
    /// Threads of this scope that run now.
    pub parallelism_used: u32,
    /// Invocations admitted and not resolved.
    pub invocations_pending: u32,
    /// Effects admitted and not resolved.
    pub effects_pending: u32,
    /// Mappings that have not been withdrawn.
    pub maps_pending: u32,
    /// Messages withdrawn before anyone received them.
    pub undelivered: u32,
    /// Closing time spent.
    pub closure_used_ns: u64,
    /// Closing time that admitted effects hold.
    pub closure_reserved_ns: u64,
    /// Processor time of the current window.
    pub cpu_window_ns: u64,
    /// Processor time of all windows.
    pub cpu_total_ns: u64,
    /// Processor time owed.
    pub cpu_debt_ns: u64,
    /// Number of the current window.
    pub window_index: u64,
    /// When an obligation was last discharged.
    pub last_progress_ns: u64,
    /// Identity of the current drain.
    pub drain_token: u64,
}

impl Scope {
    /// Amount of `r` charged to the scope.
    pub open spec fn used_spec(self, r: Resource) -> u64 {
        match r {
            Resource::MemoryPages => self.memory_pages,
            Resource::Metadata => self.metadata,
            Resource::QueueBytes => self.queue_bytes,
        }
    }

    /// Ceiling of the scope for `r`.
    pub open spec fn limit_spec(self, r: Resource) -> u64 {
        match r {
            Resource::MemoryPages => self.limits.memory_pages,
            Resource::Metadata => self.limits.metadata_objects,
            Resource::QueueBytes => self.limits.queue_bytes,
        }
    }

    /// The scope with `amount` of `r` charged to it.
    pub open spec fn with_used(self, r: Resource, amount: u64) -> Scope {
        match r {
            Resource::MemoryPages => Scope { memory_pages: amount, ..self },
            Resource::Metadata => Scope { metadata: amount, ..self },
            Resource::QueueBytes => Scope { queue_bytes: amount, ..self },
        }
    }

    /// Amount of `r` charged to the scope.
    pub fn used(&self, r: Resource) -> (amount: u64)
        ensures
            amount == self.used_spec(r),
    {
        match r {
            Resource::MemoryPages => self.memory_pages,
            Resource::Metadata => self.metadata,
            Resource::QueueBytes => self.queue_bytes,
        }
    }

    /// Ceiling of the scope for `r`.
    pub fn limit(&self, r: Resource) -> (amount: u64)
        ensures
            amount == self.limit_spec(r),
    {
        match r {
            Resource::MemoryPages => self.limits.memory_pages,
            Resource::Metadata => self.limits.metadata_objects,
            Resource::QueueBytes => self.limits.queue_bytes,
        }
    }

    /// A free slot of generation `generation`.
    pub open spec fn empty_spec(generation: u32) -> Scope {
        Scope {
            state: State::Empty,
            generation,
            id: 0,
            parent: None,
            depth: 0,
            label: spec_array_fill_for_copy_type::<u8, 16>(0),
            limits: Limits {
                memory_pages: 0,
                metadata_objects: 0,
                cpu_budget_ns: 0,
                queue_bytes: 0,
                closure_reserve_ns: 0,
                parallelism: 0,
            },
            memory_pages: 0,
            metadata: 0,
            queue_bytes: 0,
            children: 0,
            refs: 0,
            threads: 0,
            parallelism_used: 0,
            invocations_pending: 0,
            effects_pending: 0,
            maps_pending: 0,
            undelivered: 0,
            closure_used_ns: 0,
            closure_reserved_ns: 0,
            cpu_window_ns: 0,
            cpu_total_ns: 0,
            cpu_debt_ns: 0,
            window_index: 0,
            last_progress_ns: 0,
            drain_token: 0,
        }
    }

    /// A free slot of generation `generation`.
    pub fn empty(generation: u32) -> (scope: Scope)
        ensures
            scope == Scope::empty_spec(generation),
    {
        Scope {
            state: State::Empty,
            generation,
            id: 0,
            parent: None,
            depth: 0,
            label: [0u8; 16],
            limits: Limits {
                memory_pages: 0,
                metadata_objects: 0,
                cpu_budget_ns: 0,
                queue_bytes: 0,
                closure_reserve_ns: 0,
                parallelism: 0,
            },
            memory_pages: 0,
            metadata: 0,
            queue_bytes: 0,
            children: 0,
            refs: 0,
            threads: 0,
            parallelism_used: 0,
            invocations_pending: 0,
            effects_pending: 0,
            maps_pending: 0,
            undelivered: 0,
            closure_used_ns: 0,
            closure_reserved_ns: 0,
            cpu_window_ns: 0,
            cpu_total_ns: 0,
            cpu_debt_ns: 0,
            window_index: 0,
            last_progress_ns: 0,
            drain_token: 0,
        }
    }
}

/// The table has its size, parents are in use and lie right above their children,
/// and what has no parent lies at the top.
pub open spec fn scopes_wf(scopes: Seq<Scope>) -> bool {
    &&& scopes.len() == MAX_SCOPES
    &&& forall|i: int|
        0 <= i < scopes.len() ==> match #[trigger] scopes[i].parent {
            Some(p) => {
                &&& p < MAX_SCOPES
                &&& scopes[i].depth == scopes[p as int].depth + 1
                &&& scopes[p as int].state != State::Empty
            },
            None => scopes[i].depth == 0,
        }
}

/// The scope `s` and those above it.
spec fn above(scopes: Seq<Scope>, s: int) -> Set<int>
    decreases scopes[s].depth,
{
    match scopes[s].parent {
        Some(p) => if scopes[p as int].depth < scopes[s].depth {
            above(scopes, p as int).insert(s)
        } else {
            set![s]
        },
        None => set![s],
    }
}

proof fn above_is_counted(scopes: Seq<Scope>, s: int)
    requires
        scopes_wf(scopes),
        0 <= s < MAX_SCOPES,
    ensures
        above(scopes, s).finite(),
        above(scopes, s).len() == scopes[s].depth + 1,
        forall|i: int| #[trigger]
            above(scopes, s).contains(i) ==> 0 <= i < MAX_SCOPES && scopes[i].depth
                <= scopes[s].depth,
    decreases scopes[s].depth,
{
    let parent = scopes[s].parent;
    if let Some(p) = parent {
        above_is_counted(scopes, p as int);
        assert(!above(scopes, p as int).contains(s));
    }
}

/// No scope lies deeper than there are scopes.
pub proof fn depth_is_bounded(scopes: Seq<Scope>, s: int)
    requires
        scopes_wf(scopes),
        0 <= s < MAX_SCOPES,
    ensures
        scopes[s].depth < MAX_SCOPES,
{
    above_is_counted(scopes, s);
    lemma_int_range(0, MAX_SCOPES as int);
    assert(above(scopes, s).subset_of(set_int_range(0, MAX_SCOPES as int)));
    lemma_len_subset(above(scopes, s), set_int_range(0, MAX_SCOPES as int));
}

/// `s` is `root` or lies below it.
pub open spec fn within(scopes: Seq<Scope>, root: int, s: int) -> bool
    decreases scopes[s].depth,
{
    s == root || match scopes[s].parent {
        Some(p) => scopes[p as int].depth < scopes[s].depth && within(scopes, root, p as int),
        None => false,
    }
}

/// `n` more of `r` fits into `s` and into every scope above it.
pub open spec fn has_room(scopes: Seq<Scope>, s: int, r: Resource, n: int) -> bool
    decreases scopes[s].depth,
{
    &&& scopes[s].used_spec(r) + n <= scopes[s].limit_spec(r)
    &&& match scopes[s].parent {
        Some(p) => scopes[p as int].depth < scopes[s].depth ==> has_room(scopes, p as int, r, n),
        None => true,
    }
}

/// The scopes once `n` more of `r` is charged to `s` and every scope above it.
pub open spec fn charged(scopes: Seq<Scope>, s: int, r: Resource, n: int) -> Seq<Scope> {
    Seq::new(
        scopes.len(),
        |i: int|
            if within(scopes, i, s) {
                scopes[i].with_used(r, (scopes[i].used_spec(r) + n) as u64)
            } else {
                scopes[i]
            },
    )
}

/// `a - b`, or zero where that is negative.
pub open spec fn minus(a: u64, b: u64) -> u64 {
    if a >= b {
        (a - b) as u64
    } else {
        0
    }
}

/// The scopes once `n` of `r` is given back by `s` and every scope above it.
pub open spec fn released(scopes: Seq<Scope>, s: int, r: Resource, n: u64) -> Seq<Scope> {
    Seq::new(
        scopes.len(),
        |i: int|
            if within(scopes, i, s) {
                scopes[i].with_used(r, minus(scopes[i].used_spec(r), n))
            } else {
                scopes[i]
            },
    )
}

/// The two tables hold the same tree.
pub open spec fn same_tree(a: Seq<Scope>, b: Seq<Scope>) -> bool {
    &&& a.len() == b.len()
    &&& forall|i: int|
        #![trigger a[i].parent]
        #![trigger b[i].parent]
        0 <= i < a.len() ==> a[i].parent == b[i].parent && a[i].depth == b[i].depth
}

/// `n` more of one resource fits before and after another was charged.
pub proof fn room_is_separate(
    scopes: Seq<Scope>,
    s: int,
    r: Resource,
    n: int,
    other: int,
    q: Resource,
    m: int,
)
    requires
        scopes_wf(scopes),
        0 <= s < MAX_SCOPES,
        r != q,
    ensures
        has_room(charged(scopes, other, q, m), s, r, n) == has_room(scopes, s, r, n),
    decreases scopes[s].depth,
{
    match scopes[s].parent {
        Some(p) => {
            room_is_separate(scopes, p as int, r, n, other, q, m);
        },
        None => {},
    }
}

/// Room depends on the tree, the charges and the ceilings alone.
pub proof fn room_same(a: Seq<Scope>, b: Seq<Scope>, s: int, r: Resource, n: int)
    requires
        scopes_wf(a),
        same_tree(a, b),
        0 <= s < MAX_SCOPES,
        forall|i: int|
            0 <= i < MAX_SCOPES ==> (#[trigger] b[i]).used_spec(r) == a[i].used_spec(r)
                && b[i].limit_spec(r) == a[i].limit_spec(r),
    ensures
        has_room(a, s, r, n) == has_room(b, s, r, n),
    decreases a[s].depth,
{
    assert(b[s].used_spec(r) == a[s].used_spec(r));
    match a[s].parent {
        Some(p) => {
            room_same(a, b, p as int, r, n);
        },
        None => {},
    }
}

/// What fits at once fits in two steps, and the other way round.
pub proof fn room_splits(scopes: Seq<Scope>, s: int, at: int, r: Resource, a: int, b: int)
    requires
        scopes_wf(scopes),
        0 <= s < MAX_SCOPES,
        0 <= at < MAX_SCOPES,
        within(scopes, at, s),
        a >= 0,
        b >= 0,
        has_room(scopes, s, r, a),
    ensures
        has_room(scopes, at, r, a + b) == has_room(charged(scopes, s, r, a), at, r, b),
    decreases scopes[at].depth,
{
    room_in_ancestors(scopes, s, r, a, at);
    match scopes[at].parent {
        Some(p) => {
            within_step(scopes, at, s);
            room_splits(scopes, s, p as int, r, a, b);
        },
        None => {},
    }
}

/// The parent of an ancestor is an ancestor.
pub proof fn within_step(scopes: Seq<Scope>, at: int, s: int)
    requires
        scopes_wf(scopes),
        0 <= s < MAX_SCOPES,
        0 <= at < MAX_SCOPES,
        within(scopes, at, s),
        scopes[at].parent is Some,
    ensures
        within(scopes, scopes[at].parent->0 as int, s),
    decreases scopes[s].depth,
{
    let p = scopes[at].parent->0 as int;
    if s == at {
        assert(within(scopes, p, p));
    } else {
        within_step(scopes, at, scopes[s].parent->0 as int);
    }
}

/// More fits where much fits.
pub proof fn less_fits(scopes: Seq<Scope>, s: int, r: Resource, a: int, b: int)
    requires
        scopes_wf(scopes),
        0 <= s < MAX_SCOPES,
        a <= b,
        has_room(scopes, s, r, b),
    ensures
        has_room(scopes, s, r, a),
    decreases scopes[s].depth,
{
    match scopes[s].parent {
        Some(p) => {
            less_fits(scopes, p as int, r, a, b);
        },
        None => {},
    }
}

/// The same tree has the same ancestors.
pub proof fn within_same_tree(a: Seq<Scope>, b: Seq<Scope>, root: int, s: int)
    requires
        scopes_wf(a),
        same_tree(a, b),
        0 <= s < a.len(),
    ensures
        within(a, root, s) == within(b, root, s),
    decreases a[s].depth,
{
    if s != root {
        match a[s].parent {
            Some(p) => {
                within_same_tree(a, b, root, p as int);
            },
            None => {},
        }
    }
}

/// Ancestors lie above.
pub proof fn within_is_above(scopes: Seq<Scope>, root: int, s: int)
    requires
        scopes_wf(scopes),
        0 <= s < scopes.len(),
        within(scopes, root, s),
    ensures
        0 <= root < scopes.len(),
        scopes[root].depth <= scopes[s].depth,
        root != s ==> scopes[root].depth < scopes[s].depth,
    decreases scopes[s].depth,
{
    if s != root {
        within_is_above(scopes, root, scopes[s].parent->0 as int);
    }
}

/// Charging keeps the tree.
pub proof fn charged_keeps_tree(scopes: Seq<Scope>, s: int, r: Resource, n: int)
    requires
        scopes_wf(scopes),
    ensures
        scopes_wf(charged(scopes, s, r, n)),
        same_tree(scopes, charged(scopes, s, r, n)),
{
}

/// Giving back keeps the tree.
pub proof fn released_keeps_tree(scopes: Seq<Scope>, s: int, r: Resource, n: u64)
    requires
        scopes_wf(scopes),
    ensures
        scopes_wf(released(scopes, s, r, n)),
        same_tree(scopes, released(scopes, s, r, n)),
{
}

/// Whether `s` is `root` or lies below it.
pub fn is_within(scopes: &Vec<Scope>, root: u16, s: u16) -> (yes: bool)
    requires
        scopes_wf(scopes@),
        (s as int) < MAX_SCOPES,
    ensures
        yes == within(scopes@, root as int, s as int),
{
    let mut current: u16 = s;
    loop
        invariant
            scopes_wf(scopes@),
            (current as int) < MAX_SCOPES,
            within(scopes@, root as int, s as int) == within(
                scopes@,
                root as int,
                current as int,
            ),
        decreases scopes@[current as int].depth,
    {
        if current == root {
            return true;
        }
        match scopes[current as usize].parent {
            Some(parent) => {
                current = parent;
            },
            None => {
                return false;
            },
        }
    }
}

/// Whether `n` more of `r` fits into `s` and every scope above it.
pub fn fits_in(scopes: &Vec<Scope>, s: u16, r: Resource, n: u64) -> (yes: bool)
    requires
        scopes_wf(scopes@),
        (s as int) < MAX_SCOPES,
    ensures
        yes == has_room(scopes@, s as int, r, n as int),
{
    let mut current: u16 = s;
    loop
        invariant
            scopes_wf(scopes@),
            (current as int) < MAX_SCOPES,
            has_room(scopes@, s as int, r, n as int) == has_room(
                scopes@,
                current as int,
                r,
                n as int,
            ),
        decreases scopes@[current as int].depth,
    {
        let used: u64 = scopes[current as usize].used(r);
        let limit: u64 = scopes[current as usize].limit(r);
        if used > limit || n > limit - used {
            return false;
        }
        match scopes[current as usize].parent {
            Some(parent) => {
                current = parent;
            },
            None => {
                return true;
            },
        }
    }
}

fn set_used(scopes: &mut Vec<Scope>, s: u16, r: Resource, amount: u64)
    requires
        (s as int) < old(scopes)@.len(),
    ensures
        final(scopes)@ == old(scopes)@.update(
            s as int,
            old(scopes)@[s as int].with_used(r, amount),
        ),
{
    match r {
        Resource::MemoryPages => {
            scopes[s as usize].memory_pages = amount;
        },
        Resource::Metadata => {
            scopes[s as usize].metadata = amount;
        },
        Resource::QueueBytes => {
            scopes[s as usize].queue_bytes = amount;
        },
    }
}

/// Charges `n` of `r` to `s` and every scope above it, or charges nothing when
/// it does not fit into one of them.
pub fn reserve(scopes: &mut Vec<Scope>, s: u16, r: Resource, n: u64) -> (done: bool)
    requires
        scopes_wf(old(scopes)@),
        (s as int) < MAX_SCOPES,
    ensures
        scopes_wf(final(scopes)@),
        done == has_room(old(scopes)@, s as int, r, n as int),
        final(scopes)@ == if done {
            charged(old(scopes)@, s as int, r, n as int)
        } else {
            old(scopes)@
        },
{
    if !fits_in(scopes, s, r, n) {
        return false;
    }
    let ghost before = scopes@;
    let mut current: Option<u16> = Some(s);
    proof {
        assert forall|i: int| 0 <= i < before.len() implies scopes@[i] == #[trigger] partly_charged(
            before,
            s as int,
            current,
            r,
            n as int,
        )[i] by {}
    }
    while current.is_some()
        invariant
            scopes_wf(before),
            scopes@.len() == before.len(),
            (s as int) < MAX_SCOPES,
            current matches Some(c) ==> {
                &&& (c as int) < MAX_SCOPES
                &&& has_room(before, c as int, r, n as int)
                &&& forall|i: int| within(before, i, c as int) ==> within(before, i, s as int)
            },
            forall|i: int|
                0 <= i < before.len() ==> #[trigger] scopes@[i] == partly_charged(
                    before,
                    s as int,
                    current,
                    r,
                    n as int,
                )[i],
        decreases
                (match current {
                    Some(c) => before[c as int].depth + 1,
                    None => 0,
                }),
    {
        let at: u16 = match current {
            Some(at) => at,
            None => s,
        };
        assert(within(before, at as int, at as int));
        assert(scopes@[at as int] == before[at as int]);
        let amount: u64 = scopes[at as usize].used(r) + n;
        let parent = scopes[at as usize].parent;
        set_used(scopes, at, r, amount);
        proof {
            assert forall|i: int| 0 <= i < before.len() implies #[trigger] scopes@[i]
                == partly_charged(before, s as int, parent, r, n as int)[i] by {
                if parent is Some && within(before, i, parent->0 as int) {
                    within_is_above(before, i, parent->0 as int);
                }
            }
        }
        current = parent;
    }
    assert(scopes@ =~= charged(before, s as int, r, n as int));
    proof {
        charged_keeps_tree(before, s as int, r, n as int);
    }
    true
}

/// The scopes once the charge has been made to `s` and the scopes above it that
/// lie below `current`.
spec fn partly_charged(
    scopes: Seq<Scope>,
    s: int,
    current: Option<u16>,
    r: Resource,
    n: int,
) -> Seq<Scope> {
    Seq::new(
        scopes.len(),
        |i: int|
            if within(scopes, i, s) && !(current is Some && within(
                scopes,
                i,
                current->0 as int,
            )) {
                scopes[i].with_used(r, (scopes[i].used_spec(r) + n) as u64)
            } else {
                scopes[i]
            },
    )
}

spec fn partly_released(
    scopes: Seq<Scope>,
    s: int,
    current: Option<u16>,
    r: Resource,
    n: u64,
) -> Seq<Scope> {
    Seq::new(
        scopes.len(),
        |i: int|
            if within(scopes, i, s) && !(current is Some && within(
                scopes,
                i,
                current->0 as int,
            )) {
                scopes[i].with_used(r, minus(scopes[i].used_spec(r), n))
            } else {
                scopes[i]
            },
    )
}

/// Gives `n` of `r` back to `s` and every scope above it.
pub fn release(scopes: &mut Vec<Scope>, s: u16, r: Resource, n: u64)
    requires
        scopes_wf(old(scopes)@),
        (s as int) < MAX_SCOPES,
    ensures
        scopes_wf(final(scopes)@),
        final(scopes)@ == released(old(scopes)@, s as int, r, n),
{
    let ghost before = scopes@;
    let mut current: Option<u16> = Some(s);
    proof {
        assert forall|i: int| 0 <= i < before.len() implies scopes@[i]
            == #[trigger] partly_released(before, s as int, current, r, n)[i] by {}
    }
    while current.is_some()
        invariant
            scopes_wf(before),
            scopes@.len() == before.len(),
            (s as int) < MAX_SCOPES,
            current matches Some(c) ==> {
                &&& (c as int) < MAX_SCOPES
                &&& forall|i: int| within(before, i, c as int) ==> within(before, i, s as int)
            },
            forall|i: int|
                0 <= i < before.len() ==> #[trigger] scopes@[i] == partly_released(
                    before,
                    s as int,
                    current,
                    r,
                    n,
                )[i],
        decreases
                (match current {
                    Some(c) => before[c as int].depth + 1,
                    None => 0,
                }),
    {
        let at: u16 = match current {
            Some(at) => at,
            None => s,
        };
        assert(within(before, at as int, at as int));
        assert(scopes@[at as int] == before[at as int]);
        let used: u64 = scopes[at as usize].used(r);
        let amount: u64 = if used >= n {
            used - n
        } else {
            0
        };
        let parent = scopes[at as usize].parent;
        set_used(scopes, at, r, amount);
        proof {
            assert forall|i: int| 0 <= i < before.len() implies #[trigger] scopes@[i]
                == partly_released(before, s as int, parent, r, n)[i] by {
                if parent is Some && within(before, i, parent->0 as int) {
                    within_is_above(before, i, parent->0 as int);
                }
            }
        }
        current = parent;
    }
    assert(scopes@ =~= released(before, s as int, r, n));
    proof {
        released_keeps_tree(before, s as int, r, n);
    }
}

/// Giving back what was just charged restores every scope.
pub proof fn release_undoes_reserve(scopes: Seq<Scope>, s: int, r: Resource, n: u64)
    requires
        scopes_wf(scopes),
        0 <= s < MAX_SCOPES,
        has_room(scopes, s, r, n as int),
    ensures
        released(charged(scopes, s, r, n as int), s, r, n) == scopes,
{
    let after = charged(scopes, s, r, n as int);
    charged_keeps_tree(scopes, s, r, n as int);
    assert forall|i: int| 0 <= i < scopes.len() implies #[trigger] released(after, s, r, n)[i]
        == scopes[i] by {
        within_same_tree(scopes, after, i, s);
        if within(scopes, i, s) {
            room_in_ancestors(scopes, s, r, n as int, i);
        }
    }
    assert(released(after, s, r, n) =~= scopes);
}

/// What fits into a scope fits into each scope above it.
pub proof fn room_in_ancestors(scopes: Seq<Scope>, s: int, r: Resource, n: int, i: int)
    requires
        scopes_wf(scopes),
        0 <= s < MAX_SCOPES,
        has_room(scopes, s, r, n),
        within(scopes, i, s),
    ensures
        scopes[i].used_spec(r) + n <= scopes[i].limit_spec(r),
    decreases scopes[s].depth,
{
    if i != s {
        room_in_ancestors(scopes, scopes[s].parent->0 as int, r, n, i);
    }
}

/// A charge never takes a scope over its ceiling: if every scope keeps to its
/// limit before, every scope does after.
pub proof fn charges_respect_limits(scopes: Seq<Scope>, s: int, r: Resource, n: int, i: int)
    requires
        scopes_wf(scopes),
        0 <= s < MAX_SCOPES,
        has_room(scopes, s, r, n),
        0 <= i < scopes.len(),
        scopes[i].used_spec(r) <= scopes[i].limit_spec(r),
        n >= 0,
    ensures
        charged(scopes, s, r, n)[i].used_spec(r) <= charged(scopes, s, r, n)[i].limit_spec(r),
{
    if within(scopes, i, s) {
        room_in_ancestors(scopes, s, r, n, i);
    }
}

/// The scopes once every open scope within `root` is closed to new work.
pub open spec fn fenced(scopes: Seq<Scope>, root: int) -> Seq<Scope> {
    Seq::new(
        scopes.len(),
        |i: int|
            if scopes[i].state == State::Open && within(scopes, root, i) {
                Scope { state: State::Fenced, drain_token: scopes[i].id, ..scopes[i] }
            } else {
                scopes[i]
            },
    )
}

/// Open scopes within `root` among the first `n`.
pub open spec fn open_within(scopes: Seq<Scope>, root: int, n: int) -> nat
    decreases n,
{
    if n <= 0 {
        0
    } else if scopes[n - 1].state == State::Open && within(scopes, root, n - 1) {
        open_within(scopes, root, n - 1) + 1
    } else {
        open_within(scopes, root, n - 1)
    }
}

/// Marks the scopes within `root`.
fn marks_below(scopes: &Vec<Scope>, root: u16) -> (marks: [bool; MAX_SCOPES])
    requires
        scopes_wf(scopes@),
    ensures
        forall|k: int|
            0 <= k < MAX_SCOPES ==> #[trigger] marks@[k] == within(scopes@, root as int, k),
{
    let mut marks: [bool; MAX_SCOPES] = [false; MAX_SCOPES];
    for i in 0..MAX_SCOPES
        invariant
            scopes_wf(scopes@),
            forall|k: int|
                0 <= k < i ==> #[trigger] marks@[k] == within(scopes@, root as int, k),
    {
        marks[i] = is_within(scopes, root, i as u16);
    }
    marks
}

/// Marks `s` and the scopes above it.
fn marks_above(scopes: &Vec<Scope>, s: u16) -> (marks: [bool; MAX_SCOPES])
    requires
        scopes_wf(scopes@),
        (s as int) < MAX_SCOPES,
    ensures
        forall|k: int| 0 <= k < MAX_SCOPES ==> #[trigger] marks@[k] == within(scopes@, k, s as int),
{
    let mut marks: [bool; MAX_SCOPES] = [false; MAX_SCOPES];
    for i in 0..MAX_SCOPES
        invariant
            scopes_wf(scopes@),
            (s as int) < MAX_SCOPES,
            forall|k: int| 0 <= k < i ==> #[trigger] marks@[k] == within(scopes@, k, s as int),
    {
        marks[i] = is_within(scopes, i as u16, s);
    }
    marks
}

/// Marks the fenced scopes that hold nothing any more.
fn marks_clear(scopes: &Vec<Scope>) -> (marks: [bool; MAX_SCOPES])
    requires
        scopes_wf(scopes@),
    ensures
        forall|k: int|
            0 <= k < MAX_SCOPES ==> #[trigger] marks@[k] == (scopes@[k].state == State::Fenced
                && pending_spec(scopes@, k).is_clear()),
{
    let mut marks: [bool; MAX_SCOPES] = [false; MAX_SCOPES];
    for i in 0..MAX_SCOPES
        invariant
            scopes_wf(scopes@),
            forall|k: int|
                0 <= k < i ==> #[trigger] marks@[k] == (scopes@[k].state == State::Fenced
                    && pending_spec(scopes@, k).is_clear()),
    {
        let held = pending(scopes, i as u16);
        marks[i] = scopes[i].state == State::Fenced && held.threads == 0 && held.invocations == 0
            && held.effects == 0 && held.maps == 0;
    }
    marks
}

/// Scopes that keep their place and stay in use keep the tree.
proof fn keeps_tree(a: Seq<Scope>, b: Seq<Scope>)
    requires
        scopes_wf(a),
        b.len() == a.len(),
        forall|k: int|
            0 <= k < MAX_SCOPES ==> (#[trigger] b[k]).parent == a[k].parent && b[k].depth
                == a[k].depth && (b[k].state == State::Empty ==> a[k].state == State::Empty),
    ensures
        scopes_wf(b),
{
    assert forall|i: int| 0 <= i < b.len() implies match #[trigger] b[i].parent {
        Some(p) => {
            &&& p < MAX_SCOPES
            &&& b[p as int].depth < b[i].depth
            &&& b[p as int].state != State::Empty
        },
        None => true,
    } by {
        assert(a[i].parent == b[i].parent);
    }
}

/// Places the barrier on `root` and everything below it, and returns how many
/// scopes it closed.
pub fn fence(scopes: &mut Vec<Scope>, root: u16) -> (closed: u32)
    requires
        scopes_wf(old(scopes)@),
        (root as int) < MAX_SCOPES,
    ensures
        scopes_wf(final(scopes)@),
        final(scopes)@ == fenced(old(scopes)@, root as int),
        closed == open_within(old(scopes)@, root as int, MAX_SCOPES as int),
{
    let ghost before = scopes@;
    let marks = marks_below(scopes, root);
    let mut closed: u32 = 0;
    for i in 0..MAX_SCOPES
        invariant
            closed <= i,
            closed == open_within(before, root as int, i as int),
            scopes@.len() == before.len(),
            before.len() == MAX_SCOPES,
            forall|k: int|
                0 <= k < MAX_SCOPES ==> #[trigger] marks@[k] == within(before, root as int, k),
            forall|k: int|
                0 <= k < before.len() ==> #[trigger] scopes@[k] == if k < i {
                    fenced(before, root as int)[k]
                } else {
                    before[k]
                },
    {
        if scopes[i].state == State::Open && marks[i] {
            let s = scopes[i];
            scopes.set(i, Scope { state: State::Fenced, drain_token: s.id, ..s });
            closed += 1;
        }
    }
    assert(scopes@ =~= fenced(before, root as int));
    proof {
        keeps_tree(before, scopes@);
    }
    closed
}

/// After a fence no scope within the perimeter is open, and a second fence
/// changes nothing.
pub proof fn fence_reaches_every_descendant(scopes: Seq<Scope>, root: int, s: int)
    requires
        scopes_wf(scopes),
        0 <= s < MAX_SCOPES,
    ensures
        within(scopes, root, s) ==> fenced(scopes, root)[s].state != State::Open,
        !within(scopes, root, s) ==> fenced(scopes, root)[s] == scopes[s],
        fenced(fenced(scopes, root), root) == fenced(scopes, root),
{
    let once = fenced(scopes, root);
    assert forall|i: int| 0 <= i < MAX_SCOPES implies #[trigger] fenced(once, root)[i]
        == once[i] by {
        within_same_tree(scopes, once, root, i);
    }
    assert(fenced(once, root) =~= once);
}

/// What a perimeter still holds.
#[derive(Clone, Copy, Debug, PartialEq, Eq, Structural)]
pub struct Pending {
    /// Threads.
    pub threads: u32,
    /// Invocations admitted and not resolved.
    pub invocations: u32,
    /// Effects admitted and not resolved.
    pub effects: u32,
    /// Mappings that have not been withdrawn.
    pub maps: u32,
    /// Messages withdrawn before anyone received them.
    pub undelivered: u32,
    /// Pages charged.
    pub pages: u64,
    /// Kernel records charged.
    pub metadata: u64,
}

/// `a + b`, or the largest number where that overflows.
pub open spec fn plus(a: u32, b: u32) -> u32 {
    if a + b <= u32::MAX {
        (a + b) as u32
    } else {
        u32::MAX
    }
}

impl Pending {
    /// The perimeter's obligations with those of one more scope.
    pub open spec fn with(self, s: Scope) -> Pending {
        Pending {
            threads: plus(self.threads, s.threads),
            invocations: plus(self.invocations, s.invocations_pending),
            effects: plus(self.effects, s.effects_pending),
            maps: plus(self.maps, s.maps_pending),
            undelivered: plus(self.undelivered, s.undelivered),
            ..self
        }
    }

    /// Nothing is left that could still act or be acted on.
    pub open spec fn is_clear(self) -> bool {
        self.threads == 0 && self.invocations == 0 && self.effects == 0 && self.maps == 0
    }
}

/// What the scopes in use within `root`, among the first `n`, still hold. Pages
/// and records are charged to every scope above, so the root's own are all.
pub open spec fn pending_among(scopes: Seq<Scope>, root: int, n: int) -> Pending
    decreases n,
{
    if n <= 0 {
        Pending {
            threads: 0,
            invocations: 0,
            effects: 0,
            maps: 0,
            undelivered: 0,
            pages: scopes[root].memory_pages,
            metadata: scopes[root].metadata,
        }
    } else if scopes[n - 1].state != State::Empty && within(scopes, root, n - 1) {
        pending_among(scopes, root, n - 1).with(scopes[n - 1])
    } else {
        pending_among(scopes, root, n - 1)
    }
}

/// What the perimeter of `root` still holds.
pub open spec fn pending_spec(scopes: Seq<Scope>, root: int) -> Pending {
    pending_among(scopes, root, MAX_SCOPES as int)
}

/// Adds up what the perimeter of `root` still holds.
pub fn pending(scopes: &Vec<Scope>, root: u16) -> (held: Pending)
    requires
        scopes_wf(scopes@),
        (root as int) < MAX_SCOPES,
    ensures
        held == pending_spec(scopes@, root as int),
{
    let mut held = Pending {
        threads: 0,
        invocations: 0,
        effects: 0,
        maps: 0,
        undelivered: 0,
        pages: scopes[root as usize].memory_pages,
        metadata: scopes[root as usize].metadata,
    };
    for i in 0..MAX_SCOPES
        invariant
            scopes_wf(scopes@),
            (root as int) < MAX_SCOPES,
            held == pending_among(scopes@, root as int, i as int),
    {
        let s = scopes[i];
        if s.state != State::Empty && is_within(scopes, root, i as u16) {
            held = Pending {
                threads: held.threads.saturating_add(s.threads),
                invocations: held.invocations.saturating_add(s.invocations_pending),
                effects: held.effects.saturating_add(s.effects_pending),
                maps: held.maps.saturating_add(s.maps_pending),
                undelivered: held.undelivered.saturating_add(s.undelivered),
                ..held
            };
        }
    }
    held
}

/// The scopes once every fenced scope that holds nothing any more is marked
/// quiescent.
pub open spec fn quiesced(scopes: Seq<Scope>, now: u64) -> Seq<Scope> {
    Seq::new(
        scopes.len(),
        |i: int|
            if scopes[i].state == State::Fenced && pending_spec(scopes, i).is_clear() {
                Scope { state: State::Quiescent, last_progress_ns: now, ..scopes[i] }
            } else {
                scopes[i]
            },
    )
}

/// Marks every fenced scope that holds nothing any more as quiescent.
pub fn advance_quiescence(scopes: &mut Vec<Scope>, now: u64)
    requires
        scopes_wf(old(scopes)@),
    ensures
        scopes_wf(final(scopes)@),
        final(scopes)@ == quiesced(old(scopes)@, now),
{
    let ghost before = scopes@;
    let marks = marks_clear(scopes);
    for i in 0..MAX_SCOPES
        invariant
            scopes@.len() == before.len(),
            before.len() == MAX_SCOPES,
            forall|k: int|
                0 <= k < MAX_SCOPES ==> #[trigger] marks@[k] == (before[k].state == State::Fenced
                    && pending_spec(before, k).is_clear()),
            forall|k: int|
                0 <= k < before.len() ==> #[trigger] scopes@[k] == if k < i {
                    quiesced(before, now)[k]
                } else {
                    before[k]
                },
    {
        if marks[i] {
            let s = scopes[i];
            scopes.set(i, Scope { state: State::Quiescent, last_progress_ns: now, ..s });
        }
    }
    assert(scopes@ =~= quiesced(before, now));
    proof {
        keeps_tree(before, scopes@);
    }
}

/// A slot of parallelism is left in `s` and every scope above it.
pub open spec fn has_slot(scopes: Seq<Scope>, s: int) -> bool {
    forall|i: int|
        0 <= i < MAX_SCOPES && #[trigger] within(scopes, i, s) ==> scopes[i].parallelism_used
            < scopes[i].limits.parallelism
}

/// Whether a slot of parallelism is left in `s` and every scope above it.
pub fn has_parallelism(scopes: &Vec<Scope>, s: u16) -> (yes: bool)
    requires
        scopes_wf(scopes@),
        (s as int) < MAX_SCOPES,
    ensures
        yes == has_slot(scopes@, s as int),
{
    for i in 0..MAX_SCOPES
        invariant
            scopes_wf(scopes@),
            (s as int) < MAX_SCOPES,
            forall|k: int|
                0 <= k < i && #[trigger] within(scopes@, k, s as int)
                    ==> scopes@[k].parallelism_used < scopes@[k].limits.parallelism,
    {
        if scopes[i].parallelism_used >= scopes[i].limits.parallelism && is_within(
            scopes,
            i as u16,
            s,
        ) {
            return false;
        }
    }
    true
}

/// The scopes once a thread of `s` runs, or stops running.
pub open spec fn parallelised(scopes: Seq<Scope>, s: int, more: bool) -> Seq<Scope> {
    Seq::new(
        scopes.len(),
        |i: int|
            if within(scopes, i, s) {
                Scope {
                    parallelism_used: if more {
                        one_more(scopes[i].parallelism_used)
                    } else {
                        one_less(scopes[i].parallelism_used)
                    },
                    ..scopes[i]
                }
            } else {
                scopes[i]
            },
    )
}

/// Counts a running thread more, or one fewer, in `s` and every scope above it.
pub fn count_parallelism(scopes: &mut Vec<Scope>, s: u16, more: bool)
    requires
        scopes_wf(old(scopes)@),
        (s as int) < MAX_SCOPES,
    ensures
        scopes_wf(final(scopes)@),
        final(scopes)@ == parallelised(old(scopes)@, s as int, more),
{
    let ghost before = scopes@;
    let marks = marks_above(scopes, s);
    for i in 0..MAX_SCOPES
        invariant
            scopes@.len() == before.len(),
            before.len() == MAX_SCOPES,
            forall|k: int|
                0 <= k < MAX_SCOPES ==> #[trigger] marks@[k] == within(before, k, s as int),
            forall|k: int|
                0 <= k < before.len() ==> #[trigger] scopes@[k] == if k < i {
                    parallelised(before, s as int, more)[k]
                } else {
                    before[k]
                },
    {
        if marks[i] {
            let v = scopes[i];
            let used: u32 = if more {
                v.parallelism_used.saturating_add(1)
            } else {
                v.parallelism_used.saturating_sub(1)
            };
            scopes.set(i, Scope { parallelism_used: used, ..v });
        }
    }
    assert(scopes@ =~= parallelised(before, s as int, more));
    proof {
        keeps_tree(before, scopes@);
    }
}

} // verus!
