//! Laws of the change-tracking gate.
//!
//! A store is *settled* under a root when its stored outputs — transforms,
//! sizes, spread offsets and spread caches — are exactly what a fresh solve
//! of that root would write — the state left behind by a finished pass over
//! an unaltered configuration. In such a store the skip paths, the replayed
//! caches and a full re-derivation all agree, for any setting of the change
//! flags; this module states and proves that equivalence, and the
//! z-ordering every settled store exhibits.

use vstd::prelude::*;
use crate::num::{clip, UI_Z_STEP, ROOT_Z};
use crate::types::{SolveError, Direction, ChildConstraint};
use crate::spread::{distribute_spec, rounds, lock_pass, init_state};
use crate::tree::{
    TreeV, own_layout, write_own, all_constrained, cons_of, axis_len_of, csize_of, cpos_of,
    sizes_of, any_child_changed, solve_m, full_m, spread_kids_m, kids_m, replay_kids_m,
    solve_subtree_spec, solve_subtree_incremental_spec,
};

verus! {

/// The node's own outputs, and recursively its children's, equal what one
/// more solve at this space and depth would write; every step of that solve
/// succeeds.
pub open spec fn settled(t: TreeV, id: usize, sx: i64, sy: i64, z: i64, fuel: nat) -> bool
    decreases fuel, 0nat, 0int,
{
    fuel > 0 && settled_body(t, id, sx, sy, z, (fuel - 1) as nat)
}

/// [`settled`] without the depth-budget guard.
pub open spec fn settled_body(t: TreeV, id: usize, sx: i64, sy: i64, z: i64, fuel1: nat)
    -> bool
    decreases fuel1, 2nat, 0int,
{
    let node = t.conf[id as int];
    let kids = t.kids[id as int];
    let ol = own_layout(node, sx, sy);
    let cz = (z + UI_Z_STEP) as i64;
    &&& write_own(t, id as int, ol, z) == t
    &&& if kids.len() == 0 {
        true
    } else {
        match node.children_spread {
            Some(sp) => {
                &&& all_constrained(t, kids)
                &&& match distribute_spec(cons_of(t, kids),
                    axis_len_of(sp.direction, ol.w, ol.h) as int, sp.margin as int) {
                    Err(_) => false,
                    Ok(lens) => {
                        &&& t.cache[id as int]
                            == Some(sizes_of(lens, sp.direction, ol.w, ol.h))
                        &&& settled_spread_kids(t, kids, lens, sp.margin, ol.w, ol.h,
                            sp.direction, 0, 0i64, cz, fuel1)
                    },
                }
            },
            None => settled_kids(t, kids, 0, ol.w, ol.h, cz, fuel1),
        }
    }
}

/// Each spread child holds its assigned offset and is settled inside its
/// allotted rectangle.
pub open spec fn settled_spread_kids(t: TreeV, kids: Seq<usize>, lens: Seq<int>, margin: i64,
    w: i64, h: i64, dir: Direction, i: int, off: i64, cz: i64, fuel: nat) -> bool
    decreases fuel, 1nat, kids.len() - i,
{
    if i >= kids.len() {
        true
    } else {
        let c = kids[i];
        let len = lens[i] as i64;
        let size = csize_of(dir, len, w, h);
        let pos = cpos_of(dir, len, off, w, h);
        let off2 = clip(off as int + len as int + margin as int) as i64;
        &&& t.sox[c as int] == pos.0
        &&& t.soy[c as int] == pos.1
        &&& settled(t, c, size.0, size.1, cz, fuel)
        &&& settled_spread_kids(t, kids, lens, margin, w, h, dir, i + 1, off2, cz, fuel)
    }
}

/// Each plain child carries no spread data and is settled in the parent's
/// full size.
pub open spec fn settled_kids(t: TreeV, kids: Seq<usize>, i: int, w: i64, h: i64, cz: i64,
    fuel: nat) -> bool
    decreases fuel, 1nat, kids.len() - i,
{
    if i >= kids.len() {
        true
    } else {
        &&& t.conf[kids[i] as int].child_constraint is None
        &&& settled(t, kids[i], w, h, cz, fuel)
        &&& settled_kids(t, kids, i + 1, w, h, cz, fuel)
    }
}

/// A successful distribution hands out exactly one length per child.
proof fn lemma_rounds_len(cs: Seq<ChildConstraint>, st: crate::spread::SpreadState,
    fuel: nat)
    requires
        st.lens.len() == cs.len(),
        st.locked.len() == cs.len(),
        rounds(cs, st, fuel) is Ok,
    ensures
        rounds(cs, st, fuel)->Ok_0.len() == cs.len(),
    decreases fuel,
{
    let n = cs.len() as int;
    if st.nlocked >= n {
    } else if st.wsum <= 0 {
    } else {
        let lpw = st.free / st.wsum;
        let st2 = lock_pass(cs, lpw, st, n);
        crate::spread::lemma_lock_pass_untouched(cs, lpw, st, n, n);
        if st2.nlocked == st.nlocked {
        } else if fuel == 0 {
        } else {
            lemma_rounds_len(cs, st2, (fuel - 1) as nat);
        }
    }
}

/// [`lemma_rounds_len`] at the distributor's entry.
pub proof fn lemma_distribute_len(cs: Seq<ChildConstraint>, axis: int, margin: int)
    requires
        distribute_spec(cs, axis, margin) is Ok,
    ensures
        distribute_spec(cs, axis, margin)->Ok_0.len() == cs.len(),
{
    if cs.len() > 0 {
        lemma_rounds_len(cs, init_state(cs, axis, margin), cs.len() as nat);
    }
}

/// On a settled store the walker writes nothing and reports no error,
/// whether or not it is asked to respect change flags.
pub proof fn lemma_settled_solve_noop(t: TreeV, id: usize, sx: i64, sy: i64, z: i64,
    respect: bool, fuel: nat)
    requires
        t.wf(),
        (id as int) < t.len(),
        settled(t, id, sx, sy, z, fuel),
    ensures
        solve_m(t, id, sx, sy, z, respect, fuel) == (t, None::<SolveError>),
    decreases fuel, 0nat, 0int,
{
    let fuel1 = (fuel - 1) as nat;
    let node = t.conf[id as int];
    let kids = t.kids[id as int];
    let ol = own_layout(node, sx, sy);
    let cz = (z + UI_Z_STEP) as i64;
    assert forall|q: int| 0 <= q < kids.len() implies (#[trigger] kids[q]) < t.len() by {
        assert(t.kids[id as int][q] < t.len());
    }
    if respect && !t.changed[id as int] {
        if kids.len() == 0 {
        } else {
            match node.children_spread {
                Some(sp) => {
                    if t.kids_changed[id as int] || any_child_changed(t, kids, 0) {
                        lemma_settled_full_noop(t, id, sx, sy, z, false, fuel1);
                    } else {
                        let cs = cons_of(t, kids);
                        let axis = axis_len_of(sp.direction, ol.w, ol.h);
                        let lens = distribute_spec(cs, axis as int,
                            sp.margin as int)->Ok_0;
                        lemma_distribute_len(cs, axis as int, sp.margin as int);
                        let c = sizes_of(lens, sp.direction, ol.w, ol.h);
                        assert(t.cache[id as int] == Some(c));
                        assert(c.len() == kids.len());
                        lemma_settled_replay(t, kids, lens, sp.margin, ol.w, ol.h,
                            sp.direction, 0, 0i64, cz, fuel1);
                    }
                },
                None => {
                    assert(t.sw[id as int] == ol.w && t.sh[id as int] == ol.h) by {
                        assert(write_own(t, id as int, ol, z).sw[id as int] == ol.w);
                        assert(write_own(t, id as int, ol, z).sh[id as int] == ol.h);
                    }
                    lemma_settled_kids_noop(t, kids, 0, ol.w, ol.h, cz, true, false,
                        fuel1);
                },
            }
        }
    } else {
        lemma_settled_full_noop(t, id, sx, sy, z, respect, fuel1);
    }
}

/// On a settled store the full resolve rewrites every output with the value
/// it already holds.
proof fn lemma_settled_full_noop(t: TreeV, id: usize, sx: i64, sy: i64, z: i64, resp: bool,
    fuel1: nat)
    requires
        t.wf(),
        (id as int) < t.len(),
        settled_body(t, id, sx, sy, z, fuel1),
    ensures
        full_m(t, id, sx, sy, z, resp, fuel1) == (t, None::<SolveError>),
    decreases fuel1, 2nat, 0int,
{
    let node = t.conf[id as int];
    let kids = t.kids[id as int];
    let ol = own_layout(node, sx, sy);
    let cz = (z + UI_Z_STEP) as i64;
    assert forall|q: int| 0 <= q < kids.len() implies (#[trigger] kids[q]) < t.len() by {
        assert(t.kids[id as int][q] < t.len());
    }
    if kids.len() == 0 {
    } else {
        match node.children_spread {
            Some(sp) => {
                let cs = cons_of(t, kids);
                let axis = axis_len_of(sp.direction, ol.w, ol.h);
                let lens = distribute_spec(cs, axis as int, sp.margin as int)->Ok_0;
                lemma_settled_spread_noop(t, kids, lens, sp.margin, ol.w, ol.h,
                    sp.direction, 0, 0i64, cz, resp, fuel1);
                assert(t.cache.update(id as int,
                    Some(sizes_of(lens, sp.direction, ol.w, ol.h))) =~= t.cache);
                assert((TreeV {
                    cache: t.cache.update(id as int,
                        Some(sizes_of(lens, sp.direction, ol.w, ol.h))),
                    ..t
                }) =~= t);
            },
            None => {
                lemma_settled_kids_noop(t, kids, 0, ol.w, ol.h, cz, false, true, fuel1);
            },
        }
    }
}

/// The spread pass over settled children reassigns the offsets they already
/// hold and leaves every subtree as it is.
proof fn lemma_settled_spread_noop(t: TreeV, kids: Seq<usize>, lens: Seq<int>, margin: i64,
    w: i64, h: i64, dir: Direction, i: int, off: i64, cz: i64, resp: bool, fuel: nat)
    requires
        t.wf(),
        forall|q: int| 0 <= q < kids.len() ==> (#[trigger] kids[q]) < t.len(),
        0 <= i,
        settled_spread_kids(t, kids, lens, margin, w, h, dir, i, off, cz, fuel),
    ensures
        spread_kids_m(t, kids, lens, margin, w, h, dir, i, off, cz, resp, fuel)
            == (t, None::<SolveError>),
    decreases fuel, 1nat, kids.len() - i,
{
    if i >= kids.len() {
    } else {
        let c = kids[i];
        let len = lens[i] as i64;
        let pos = cpos_of(dir, len, off, w, h);
        let off2 = clip(off as int + len as int + margin as int) as i64;
        assert((c as int) < t.len());
        assert(t.sox[c as int] == pos.0);
        assert(t.soy[c as int] == pos.1);
        assert(t.sox.update(c as int, pos.0) =~= t.sox);
        assert(t.soy.update(c as int, pos.1) =~= t.soy);
        assert((TreeV {
            sox: t.sox.update(c as int, pos.0),
            soy: t.soy.update(c as int, pos.1),
            ..t
        }) =~= t);
        let size = csize_of(dir, len, w, h);
        lemma_settled_solve_noop(t, c, size.0, size.1, cz, resp, fuel);
        lemma_settled_spread_noop(t, kids, lens, margin, w, h, dir, i + 1, off2, cz, resp,
            fuel);
    }
}

/// The plain walk over settled children leaves every subtree as it is.
proof fn lemma_settled_kids_noop(t: TreeV, kids: Seq<usize>, i: int, w: i64, h: i64,
    cz: i64, resp: bool, check: bool, fuel: nat)
    requires
        t.wf(),
        forall|q: int| 0 <= q < kids.len() ==> (#[trigger] kids[q]) < t.len(),
        0 <= i,
        settled_kids(t, kids, i, w, h, cz, fuel),
    ensures
        kids_m(t, kids, i, w, h, cz, resp, check, fuel) == (t, None::<SolveError>),
    decreases fuel, 1nat, kids.len() - i,
{
    if i >= kids.len() {
    } else {
        lemma_settled_solve_noop(t, kids[i], w, h, cz, resp, fuel);
        lemma_settled_kids_noop(t, kids, i + 1, w, h, cz, resp, check, fuel);
    }
}

/// Replaying the cached sizes over settled children leaves every subtree as
/// it is.
proof fn lemma_settled_replay(t: TreeV, kids: Seq<usize>, lens: Seq<int>, margin: i64,
    w: i64, h: i64, dir: Direction, i: int, off: i64, cz: i64, fuel: nat)
    requires
        t.wf(),
        forall|q: int| 0 <= q < kids.len() ==> (#[trigger] kids[q]) < t.len(),
        0 <= i,
        settled_spread_kids(t, kids, lens, margin, w, h, dir, i, off, cz, fuel),
        lens.len() == kids.len(),
    ensures
        replay_kids_m(t, kids, sizes_of(lens, dir, w, h), i, cz, fuel)
            == (t, None::<SolveError>),
    decreases fuel, 1nat, kids.len() - i,
{
    if i >= kids.len() {
    } else {
        let len = lens[i] as i64;
        let size = csize_of(dir, len, w, h);
        let off2 = clip(off as int + len as int + margin as int) as i64;
        assert(sizes_of(lens, dir, w, h)[i] == size);
        lemma_settled_solve_noop(t, kids[i], size.0, size.1, cz, true, fuel);
        lemma_settled_replay(t, kids, lens, margin, w, h, dir, i + 1, off2, cz, fuel);
    }
}

/// Change-tracking equivalence: on a settled store — one whose stored
/// outputs agree with a fresh solve, the state a completed pass leaves when
/// no configuration changed since — the incremental entry and the full
/// entry write identical outputs (none), succeed, and so agree with each
/// other, whatever the change flags say.
pub proof fn lemma_incremental_matches_full(t: TreeV, root: usize, sx: i64, sy: i64)
    requires
        t.wf(),
        (root as int) < t.len(),
        settled(t, root, sx, sy, ROOT_Z, (t.conf.len() + 1) as nat),
    ensures
        solve_subtree_spec(t, root, sx, sy) == (t, None::<SolveError>),
        solve_subtree_incremental_spec(t, root, sx, sy) == (t, None::<SolveError>),
        solve_subtree_incremental_spec(t, root, sx, sy)
            == solve_subtree_spec(t, root, sx, sy),
{
    lemma_settled_solve_noop(t, root, sx, sy, ROOT_Z, false, (t.conf.len() + 1) as nat);
    lemma_settled_solve_noop(t, root, sx, sy, ROOT_Z, true, (t.conf.len() + 1) as nat);
}

/// The walker settles what it solves, shown here for a childless node: a
/// full resolve leaves the node in a state one more resolve would not
/// alter, so the settled hypothesis above is the state solve passes reach.
pub proof fn lemma_leaf_solve_settles(t: TreeV, id: usize, sx: i64, sy: i64, z: i64,
    resp: bool, fuel1: nat, fuel: nat)
    requires
        t.wf(),
        (id as int) < t.len(),
        t.kids[id as int].len() == 0,
        fuel > 0,
    ensures
        settled(full_m(t, id, sx, sy, z, resp, fuel1).0, id, sx, sy, z, fuel),
{
    let ol = own_layout(t.conf[id as int], sx, sy);
    let t1 = write_own(t, id as int, ol, z);
    assert(full_m(t, id, sx, sy, z, resp, fuel1).0 == t1);
    let ol1 = own_layout(t1.conf[id as int], sx, sy);
    assert(ol1 == ol);
    assert(t1.tx.update(id as int, t1.tx[id as int]) =~= t1.tx);
    assert(t1.ty.update(id as int, t1.ty[id as int]) =~= t1.ty);
    assert(t1.tz.update(id as int, z) =~= t1.tz);
    assert(t1.sw.update(id as int, ol.w) =~= t1.sw);
    assert(t1.sh.update(id as int, ol.h) =~= t1.sh);
    assert(write_own(t1, id as int, ol1, z) =~= t1);
}

/// Within a settled run of spread children, each child is settled in its
/// allotted rectangle.
proof fn lemma_spread_child_settled(t: TreeV, kids: Seq<usize>, lens: Seq<int>, margin: i64,
    w: i64, h: i64, dir: Direction, i: int, off: i64, cz: i64, fuel: nat, k: int)
    requires
        settled_spread_kids(t, kids, lens, margin, w, h, dir, i, off, cz, fuel),
        i <= k < kids.len(),
    ensures
        settled(t, kids[k], csize_of(dir, lens[k] as i64, w, h).0,
            csize_of(dir, lens[k] as i64, w, h).1, cz, fuel),
    decreases k - i,
{
    if i < k {
        let len = lens[i] as i64;
        let off2 = clip(off as int + len as int + margin as int) as i64;
        lemma_spread_child_settled(t, kids, lens, margin, w, h, dir, i + 1, off2, cz, fuel,
            k);
    }
}

/// Within a settled run of plain children, each child is settled in the
/// parent's size.
proof fn lemma_plain_child_settled(t: TreeV, kids: Seq<usize>, i: int, w: i64, h: i64,
    cz: i64, fuel: nat, k: int)
    requires
        settled_kids(t, kids, i, w, h, cz, fuel),
        i <= k < kids.len(),
    ensures
        settled(t, kids[k], w, h, cz, fuel),
    decreases k - i,
{
    if i < k {
        lemma_plain_child_settled(t, kids, i + 1, w, h, cz, fuel, k);
    }
}

/// A settled node's stored z is the z of its solve.
proof fn lemma_settled_z(t: TreeV, id: usize, sx: i64, sy: i64, z: i64, fuel: nat)
    requires
        t.wf(),
        (id as int) < t.len(),
        settled(t, id, sx, sy, z, fuel),
    ensures
        t.tz[id as int] == z,
{
    let ol = own_layout(t.conf[id as int], sx, sy);
    assert(write_own(t, id as int, ol, z).tz[id as int] == z);
}

/// Z-ordering: in a settled (resolved) store, every child of a node sits
/// strictly closer to the camera than its parent, by exactly the fixed
/// per-level step.
pub proof fn lemma_z_ordering(t: TreeV, id: usize, sx: i64, sy: i64, z: i64, fuel: nat,
    k: int)
    requires
        t.wf(),
        (id as int) < t.len(),
        settled(t, id, sx, sy, z, fuel),
        0 <= k < t.kids[id as int].len(),
        -1_000_000_000 <= z <= 1_000_000_000,
    ensures
        t.tz[id as int] == z,
        t.tz[t.kids[id as int][k] as int] as int == t.tz[id as int] as int + UI_Z_STEP,
{
    lemma_settled_z(t, id, sx, sy, z, fuel);
    let fuel1 = (fuel - 1) as nat;
    let node = t.conf[id as int];
    let kids = t.kids[id as int];
    let ol = own_layout(node, sx, sy);
    let cz = (z + UI_Z_STEP) as i64;
    match node.children_spread {
        Some(sp) => {
            let cs = cons_of(t, kids);
            let axis = axis_len_of(sp.direction, ol.w, ol.h);
            let lens = distribute_spec(cs, axis as int, sp.margin as int)->Ok_0;
            lemma_spread_child_settled(t, kids, lens, sp.margin, ol.w, ol.h, sp.direction,
                0, 0i64, cz, fuel1, k);
            let size = csize_of(sp.direction, lens[k] as i64, ol.w, ol.h);
            lemma_settled_z(t, kids[k], size.0, size.1, cz, fuel1);
        },
        None => {
            lemma_plain_child_settled(t, kids, 0, ol.w, ol.h, cz, fuel1, k);
            lemma_settled_z(t, kids[k], ol.w, ol.h, cz, fuel1);
        },
    }
}

} // verus!
