//! Operations every typed capability supports.
//!
//! Deriving can only remove rights and bring a deadline forward; it can add a
//! bounding scope. Copying adds a handle and nothing else: the copy shares the
//! grant, so a barrier reaches it. Fencing a grant stops a copy that lives in
//! another domain and a derivation made from it in a third; closing a handle is
//! a different operation with a different meaning.

use vstd::prelude::*;

use crate::abi::request::{CapInfo, DeriveRequest, DrainReport};
use crate::abi::status::Status;
use crate::abi::{cap_lineage, object_type, receipt_kind, right};
use crate::api::ipcops::{grant_id, narrow_deadline, narrowed_deadline};
use crate::api::{
    cap_install, cap_named_ok, cap_release, descends, grant_within, lineage, lineage_status, mint,
    object_id, receipt, resolve, Ctx, Stated,
};
use crate::ipc::{Effect, State};
use crate::limits::{
    MAX_DERIVE_DEPTH, MAX_DOMAINS, MAX_GRANTS, MAX_INVOCATIONS, MAX_MAPS, MAX_THREADS,
};
use crate::obj::{cap_lookup, Grant, ObjKind};
use crate::scope::{self, Scope};
use crate::state::{Machine, MachineModel};

verus! {

/// The positions a caller's context holds lie in their tables.
pub open spec fn any_ctx_ok(ctx: Ctx) -> bool {
    ctx.domain < MAX_DOMAINS && ctx.thread < MAX_THREADS && cap_named_ok(ctx.cap)
}

/// What the status of a lineage is reported as.
pub open spec fn lineage_state(status: Status) -> u32 {
    if status == Status::Success {
        cap_lineage::LIVE
    } else if status == Status::Expired {
        cap_lineage::EXPIRED
    } else {
        cap_lineage::FENCED
    }
}

impl MachineModel {
    /// What a capability names and what its lineage permits.
    pub open spec fn cap_info(self, ctx: Ctx) -> CapInfo {
        let node = self.grants[ctx.cap.grant as int];
        CapInfo {
            object_type: ctx.cap.object.kind.type_spec(),
            rights: node.rights,
            derive_depth: node.depth,
            lineage_state: lineage_state(self.lineage_of(ctx.cap.grant, ctx.now)),
            grant_id: node.id,
            parent_grant_id: self.grant_id(node.parent),
            deadline_ns: node.deadline_ns,
            life_scope_id: match node.life_scope {
                Some(s) => self.scopes[s as int].id,
                None => 0,
            },
            object_id: self.identity(ctx.cap.object),
            facet: node.facet,
        }
    }

    /// The scope the life of a derived capability is bound to, or why the one
    /// asked for is refused.
    pub open spec fn derived_life(self, ctx: Ctx, request: DeriveRequest) -> Result<
        Option<u16>,
        Status,
    > {
        if request.life_scope == 0 {
            Ok(self.grants[ctx.cap.grant as int].life_scope)
        } else {
            match self.resolved(
                ctx.domain as int,
                request.life_scope,
                object_type::SCOPE,
                right::INSPECT,
                ctx.now,
            ) {
                Ok(cap) => Ok(Some(cap.object.index)),
                Err(code) => Err(code),
            }
        }
    }

    /// Why a capability is not derived, or nothing when it is.
    pub open spec fn derive_fault(self, ctx: Ctx, request: DeriveRequest) -> Option<Status> {
        let parent = self.grants[ctx.cap.grant as int];
        if request.reserved0 != 0 {
            Some(Status::InvalidArgument)
        } else if request.rights_mask & !parent.rights != 0 {
            Some(Status::InsufficientRights)
        } else if request.rights_mask & !ctx.cap.object.kind.mask_spec() != 0 {
            Some(Status::InvalidArgument)
        } else if narrowed_deadline(parent.deadline_ns, request.deadline_ns) is None {
            Some(Status::InvalidArgument)
        } else {
            match self.derived_life(ctx, request) {
                Err(code) => Some(code),
                Ok(_) => if self.can_mint(ctx.domain as int, ctx.cap.grant) {
                    None
                } else {
                    Some(Status::LimitExhausted)
                },
            }
        }
    }

    /// The machine once a capability has been derived.
    pub open spec fn derived(self, ctx: Ctx, request: DeriveRequest) -> MachineModel {
        let parent = self.grants[ctx.cap.grant as int];
        self.minted(
            ctx.domain as int,
            ctx.cap.grant,
            ctx.cap.object,
            request.rights_mask,
            narrowed_deadline(parent.deadline_ns, request.deadline_ns)->0,
            self.derived_life(ctx, request)->Ok_0,
            parent.facet,
        )
    }

    /// A grant node that a barrier on `root` changes.
    pub open spec fn is_fenceable(self, root: u16, g: int) -> bool {
        self.grants[g].used && !self.grants[g].fenced && self.is_grant_within(root, g as u16)
    }

    /// The machine once a barrier stands on a grant and everything derived from
    /// it.
    pub open spec fn lineage_fenced(self, root: u16) -> MachineModel {
        MachineModel {
            grants: Seq::new(
                self.grants.len(),
                |g: int|
                    if self.is_fenceable(root, g) {
                        Grant { fenced: true, ..self.grants[g] }
                    } else {
                        self.grants[g]
                    },
            ),
            ..self
        }
    }

    /// Grant nodes among the first `n` that a barrier on `root` changes.
    pub open spec fn fenceable(self, root: u16, n: int) -> nat
        decreases n,
    {
        if n <= 0 {
            0
        } else if self.is_fenceable(root, n - 1) {
            self.fenceable(root, n - 1) + 1
        } else {
            self.fenceable(root, n - 1)
        }
    }

    /// The machine once a capability has been fenced, with its receipt.
    pub open spec fn cap_fenced(self, ctx: Ctx) -> MachineModel {
        let after = self.lineage_fenced(ctx.cap.grant);
        after.receipted(
            Stated {
                kind: receipt_kind::FENCE,
                domain: ctx.domain,
                scope: self.domains[ctx.domain as int].owner_scope,
                object: self.identity(ctx.cap.object),
                grant: self.grants[ctx.cap.grant as int].id,
                parent: 0,
                result: Status::Success,
                a: self.fenceable(ctx.cap.grant, MAX_GRANTS as int) as u64,
                b: 0,
            },
            ctx.now,
            false,
        )
    }

    /// Mappings among the first `n` that were made through a lineage.
    pub open spec fn lineage_maps(self, root: u16, n: int) -> nat
        decreases n,
    {
        if n <= 0 {
            0
        } else if self.maps[n - 1].used && self.is_grant_within(root, self.maps[n - 1].grant) {
            self.lineage_maps(root, n - 1) + 1
        } else {
            self.lineage_maps(root, n - 1)
        }
    }

    /// An invocation that is still owed and came through a lineage.
    pub open spec fn is_owed_through(self, root: u16, i: int) -> bool {
        let invocation = self.invocations[i];
        &&& invocation.state != State::Empty
        &&& invocation.state != State::Resolved
        &&& self.is_grant_within(root, invocation.grant)
    }

    /// Invocations among the first `n` that are still owed and came through a
    /// lineage.
    pub open spec fn lineage_owed(self, root: u16, n: int) -> nat
        decreases n,
    {
        if n <= 0 {
            0
        } else if self.is_owed_through(root, n - 1) {
            self.lineage_owed(root, n - 1) + 1
        } else {
            self.lineage_owed(root, n - 1)
        }
    }

    /// Those of them that have begun an effect.
    pub open spec fn lineage_effects(self, root: u16, n: int) -> nat
        decreases n,
    {
        if n <= 0 {
            0
        } else if self.is_owed_through(root, n - 1) && self.invocations[n - 1].effect
            == Effect::Admitted {
            self.lineage_effects(root, n - 1) + 1
        } else {
            self.lineage_effects(root, n - 1)
        }
    }

    /// What a lineage still holds.
    pub open spec fn lineage_report(self, root: u16, now: u64) -> DrainReport {
        DrainReport {
            state: if self.grants[root as int].fenced {
                scope::State::Fenced.abi_spec()
            } else {
                scope::State::Open.abi_spec()
            },
            threads_running: 0,
            invocations_pending: self.lineage_owed(root, MAX_INVOCATIONS as int) as u32,
            effects_pending: self.lineage_effects(root, MAX_INVOCATIONS as int) as u32,
            maps_pending: self.lineage_maps(root, MAX_MAPS as int) as u32,
            undelivered_cancelled: 0,
            retained_pages: 0,
            retained_metadata: 0,
            last_progress_ns: now,
            token: self.grants[root as int].id,
        }
    }
}

/// Reports what a capability names and what its lineage still permits.
pub fn inspect(machine: &Machine, ctx: &Ctx) -> (info: CapInfo)
    requires
        machine.wf(),
        any_ctx_ok(*ctx),
    ensures
        info == machine@.cap_info(*ctx),
{
    let node = machine.grant(ctx.cap.grant as usize);
    let status = lineage_status(machine, ctx.cap.grant, ctx.now);
    let lineage_state: u32 = if status == Status::Success {
        cap_lineage::LIVE
    } else if status == Status::Expired {
        cap_lineage::EXPIRED
    } else {
        cap_lineage::FENCED
    };
    CapInfo {
        object_type: ctx.cap.object.kind.abi_type(),
        rights: node.rights,
        derive_depth: node.depth,
        lineage_state,
        grant_id: node.id,
        parent_grant_id: grant_id(machine, node.parent),
        deadline_ns: node.deadline_ns,
        life_scope_id: match node.life_scope {
            Some(s) => machine.scope(s as usize).id,
            None => 0,
        },
        object_id: object_id(machine, ctx.cap.object),
        facet: node.facet,
    }
}

/// Creates a child grant that removes rights, brings the deadline forward, or
/// adds a bounding scope.
///
/// Amplification is refused rather than clamped: a caller that asked for more
/// than it holds asked for something that does not exist.
pub fn derive(machine: &mut Machine, ctx: &Ctx, request: &DeriveRequest) -> (result: Result<
    u64,
    Status,
>)
    requires
        old(machine).wf(),
        any_ctx_ok(*ctx),
    ensures
        final(machine).wf(),
        final(machine).same_tables(*old(machine)),
        match old(machine)@.derive_fault(*ctx, *request) {
            Some(code) => {
                &&& result == Err::<u64, Status>(code)
                &&& final(machine)@ == old(machine)@
            },
            None => {
                &&& final(machine)@ == old(machine)@.derived(*ctx, *request)
                &&& result == Ok::<u64, Status>(old(machine)@.minted_handle(ctx.domain as int))
            },
        },
{
    if request.reserved0 != 0 {
        return Err(Status::InvalidArgument);
    }
    let parent = machine.grant(ctx.cap.grant as usize);
    if request.rights_mask & !parent.rights != 0 {
        return Err(Status::InsufficientRights);
    }
    if request.rights_mask & !ctx.cap.object.kind.rights_mask() != 0 {
        return Err(Status::InvalidArgument);
    }
    let deadline: u64 = match narrow_deadline(parent.deadline_ns, request.deadline_ns) {
        None => {
            return Err(Status::InvalidArgument);
        },
        Some(deadline) => deadline,
    };
    let life_scope: Option<u16> = if request.life_scope == 0 {
        parent.life_scope
    } else {
        match resolve(
            machine,
            ctx.domain,
            request.life_scope,
            object_type::SCOPE,
            right::INSPECT,
            ctx.now,
        ) {
            Err(code) => {
                return Err(code);
            },
            Ok(cap) => {
                assert(cap.object.kind == ObjKind::Scope);
                Some(cap.object.index)
            },
        }
    };
    match mint(
        machine,
        ctx.domain,
        ctx.cap.grant,
        ctx.cap.object,
        request.rights_mask,
        deadline,
        life_scope,
        parent.facet,
    ) {
        Some(handle) => Ok(handle),
        None => Err(Status::LimitExhausted),
    }
}

/// Installs a second handle on the same grant.
pub fn copy(machine: &mut Machine, ctx: &Ctx) -> (result: Result<u64, Status>)
    requires
        old(machine).wf(),
        any_ctx_ok(*ctx),
    ensures
        final(machine).wf(),
        final(machine).same_tables(*old(machine)),
        ({
            let m = old(machine)@;
            let d = ctx.domain as int;
            let slot = m.slot_for(d, None);
            if m.can_install(d, None) {
                &&& result == Ok::<u64, Status>(m.fresh_handle(d, slot))
                &&& final(machine)@ == m.install(d, slot, ctx.cap.object, ctx.cap.grant)
            } else {
                &&& result == Err::<u64, Status>(Status::LimitExhausted)
                &&& final(machine)@ == m
            }
        }),
{
    match cap_install(machine, ctx.domain, ctx.cap.object, ctx.cap.grant, None) {
        Some(handle) => Ok(handle),
        None => Err(Status::LimitExhausted),
    }
}

/// Releases the caller's own table entry.
pub fn close(machine: &mut Machine, ctx: &Ctx) -> (result: Result<u64, Status>)
    requires
        old(machine).wf(),
        any_ctx_ok(*ctx),
    ensures
        final(machine).wf(),
        final(machine).same_tables(*old(machine)),
        if cap_lookup(old(machine)@.caps, ctx.domain as int, ctx.handle) is Some {
            &&& result == Ok::<u64, Status>(0)
            &&& final(machine)@ == old(machine)@.release_slot(
                ctx.domain as int,
                crate::abi::slot_of(ctx.handle) as int,
            )
        } else {
            &&& result == Err::<u64, Status>(Status::InvalidHandle)
            &&& final(machine)@ == old(machine)@
        },
{
    if cap_release(machine, ctx.domain, ctx.handle) {
        Ok(0)
    } else {
        Err(Status::InvalidHandle)
    }
}

/// Marks the grant nodes that a barrier on `root` changes.
fn marks_fenceable(machine: &Machine, root: u16) -> (marks: [bool; MAX_GRANTS])
    requires
        machine.wf(),
    ensures
        forall|g: int|
            0 <= g < MAX_GRANTS ==> #[trigger] marks@[g] == machine@.is_fenceable(root, g),
{
    let mut marks: [bool; MAX_GRANTS] = [false; MAX_GRANTS];
    for g in 0..MAX_GRANTS
        invariant
            machine.wf(),
            forall|k: int| 0 <= k < g ==> #[trigger] marks@[k] == machine@.is_fenceable(root, k),
    {
        let node = machine.grant(g);
        marks[g] = node.used && !node.fenced && grant_within(machine, root, g as u16);
    }
    marks
}

/// Places a barrier on a grant and everything derived from it; returns how many
/// nodes it changed.
pub fn fence_lineage(machine: &mut Machine, root: u16) -> (changed: u32)
    requires
        old(machine).wf(),
    ensures
        final(machine).wf(),
        final(machine).same_tables(*old(machine)),
        final(machine)@ == old(machine)@.lineage_fenced(root),
        changed == old(machine)@.fenceable(root, MAX_GRANTS as int),
{
    let ghost before = machine@;
    proof {
        machine.wf_sized();
    }
    let marks = marks_fenceable(machine, root);
    let mut changed: u32 = 0;
    for g in 0..MAX_GRANTS
        invariant
            machine.wf(),
            machine.same_tables(*old(machine)),
            before.grants.len() == MAX_GRANTS,
            forall|k: int|
                0 <= k < MAX_GRANTS ==> #[trigger] marks@[k] == before.is_fenceable(root, k),
            changed <= g,
            changed == before.fenceable(root, g as int),
            machine@ == (MachineModel { grants: machine@.grants, ..before }),
            machine@.grants.len() == before.grants.len(),
            forall|k: int|
                0 <= k < MAX_GRANTS ==> #[trigger] machine@.grants[k] == if k < g {
                    before.lineage_fenced(root).grants[k]
                } else {
                    before.grants[k]
                },
    {
        if marks[g] {
            let node = machine.grant(g);
            machine.set_grant(g, Grant { fenced: true, ..node });
            changed += 1;
        }
    }
    assert(machine@ =~= before.lineage_fenced(root));
    changed
}

/// Places a barrier on this grant and everything derived or copied from it.
pub fn fence(machine: &mut Machine, ctx: &Ctx) -> (result: Result<u64, Status>)
    requires
        old(machine).wf(),
        any_ctx_ok(*ctx),
    ensures
        final(machine).wf(),
        final(machine).same_tables(*old(machine)),
        final(machine)@ == old(machine)@.cap_fenced(*ctx),
        result == Ok::<u64, Status>(
            old(machine)@.fenceable(ctx.cap.grant, MAX_GRANTS as int) as u64,
        ),
{
    let grant: u64 = machine.grant(ctx.cap.grant as usize).id;
    let object: u64 = object_id(machine, ctx.cap.object);
    let scope: u16 = machine.domain(ctx.domain).owner_scope;
    let changed: u32 = fence_lineage(machine, ctx.cap.grant);
    receipt(
        machine,
        Stated {
            kind: receipt_kind::FENCE,
            domain: ctx.domain,
            scope,
            object,
            grant,
            parent: 0,
            result: Status::Success,
            a: changed as u64,
            b: 0,
        },
        ctx.now,
        false,
    );
    Ok(changed as u64)
}

/// Counts the mappings that were made through a lineage.
fn count_maps(machine: &Machine, root: u16) -> (count: u32)
    requires
        machine.wf(),
    ensures
        count == machine@.lineage_maps(root, MAX_MAPS as int),
{
    let mut count: u32 = 0;
    for i in 0..MAX_MAPS
        invariant
            machine.wf(),
            count <= i,
            count == machine@.lineage_maps(root, i as int),
    {
        let map = machine.map(i);
        if map.used && grant_within(machine, root, map.grant) {
            count += 1;
        }
    }
    count
}

/// Reports what this grant lineage still holds.
pub fn drain_status(machine: &Machine, ctx: &Ctx) -> (report: DrainReport)
    requires
        machine.wf(),
        any_ctx_ok(*ctx),
    ensures
        report == machine@.lineage_report(ctx.cap.grant, ctx.now),
{
    let root: u16 = ctx.cap.grant;
    let node = machine.grant(root as usize);
    let mut owed: u32 = 0;
    let mut effects: u32 = 0;
    for i in 0..MAX_INVOCATIONS
        invariant
            machine.wf(),
            owed <= i,
            effects <= i,
            owed == machine@.lineage_owed(root, i as int),
            effects == machine@.lineage_effects(root, i as int),
    {
        let invocation = machine.invocation(i);
        if invocation.state != State::Empty && invocation.state != State::Resolved
            && grant_within(machine, root, invocation.grant) {
            owed += 1;
            if invocation.effect == Effect::Admitted {
                effects += 1;
            }
        }
    }
    DrainReport {
        state: if node.fenced {
            scope::State::Fenced.abi()
        } else {
            scope::State::Open.abi()
        },
        threads_running: 0,
        invocations_pending: owed,
        effects_pending: effects,
        maps_pending: count_maps(machine, root),
        undelivered_cancelled: 0,
        retained_pages: 0,
        retained_metadata: 0,
        last_progress_ns: ctx.now,
        token: node.id,
    }
}

/// Deriving only narrows: the child has no right its parent lacks, expires no
/// later, and names the same object.
pub proof fn derive_only_narrows(m: MachineModel, ctx: Ctx, request: DeriveRequest)
    requires
        m.sized(),
        any_ctx_ok(ctx),
        m.derive_fault(ctx, request) is None,
        m.grants[ctx.cap.grant as int].used,
        m.grants[ctx.cap.grant as int].object == ctx.cap.object,
    ensures
        ({
            let parent = m.grants[ctx.cap.grant as int];
            let child = m.derived(ctx, request).grants[m.next_grant()];
            &&& child.rights & !parent.rights == 0
            &&& child.object == parent.object
            &&& child.facet == parent.facet
            &&& child.parent == ctx.cap.grant
            &&& parent.deadline_ns != 0 ==> 0 < child.deadline_ns <= parent.deadline_ns
        }),
{
    let at = m.next_grant();
    free_node_is_unused(m);
    let made = m.granted(
        m.domains[ctx.domain as int].owner_scope,
        ctx.cap.grant,
        ctx.cap.object,
        request.rights_mask,
        narrowed_deadline(m.grants[ctx.cap.grant as int].deadline_ns, request.deadline_ns)->0,
        m.derived_life(ctx, request)->Ok_0,
        m.grants[ctx.cap.grant as int].facet,
    );
    assert(made.grants[at].rights == request.rights_mask);
}

/// The node the next allocation takes is free.
pub proof fn free_node_is_unused(m: MachineModel)
    requires
        m.sized(),
        m.next_grant() < MAX_GRANTS,
    ensures
        0 <= m.next_grant(),
        !m.grants[m.next_grant()].used,
{
    first_is_free(m.grants, m.grant_hint as int, MAX_GRANTS as int);
    first_is_free(m.grants, 0, m.grant_hint as int);
}

proof fn first_is_free(grants: Seq<Grant>, from: int, to: int)
    requires
        from <= to,
    ensures
        from <= crate::api::first_grant(grants, from, to) <= to,
        crate::api::first_grant(grants, from, to) < to ==> !grants[crate::api::first_grant(
            grants,
            from,
            to,
        )].used,
    decreases to - from,
{
    if from < to && grants[from].used {
        first_is_free(grants, from + 1, to);
    }
}

/// A barrier on a grant reaches everything that descends from it: no such
/// lineage permits anything afterwards, whoever holds it.
pub proof fn fence_stops_every_descendant(m: MachineModel, root: u16, g: u16, now: u64)
    requires
        m.sized(),
        root < MAX_GRANTS,
        m.is_grant_within(root, g),
    ensures
        m.lineage_fenced(root).lineage_of(g, now) != Status::Success,
{
    let after = m.lineage_fenced(root);
    barred(
        m,
        root,
        g,
        now,
        (MAX_DERIVE_DEPTH + 2) as nat,
        (MAX_DERIVE_DEPTH + 1) as nat,
    );
}

proof fn barred(m: MachineModel, root: u16, g: u16, now: u64, up: nat, steps: nat)
    requires
        m.sized(),
        root < MAX_GRANTS,
        descends(m.grants, root, g, up),
    ensures
        lineage(m.lineage_fenced(root).grants, m.scopes, g, now, steps) != Status::Success,
    decreases steps,
{
    if steps > 0 && g < MAX_GRANTS {
        if g == root {
            assert(descends(m.grants, root, root, (MAX_DERIVE_DEPTH + 2) as nat));
            assert(m.is_grant_within(root, g));
        } else if m.grants[g as int].used {
            barred(
                m,
                root,
                m.grants[g as int].parent,
                now,
                (up - 1) as nat,
                (steps - 1) as nat,
            );
        }
    }
}

} // verus!
