//! The spread distributor: partitions one axis length among children
//! proportionally to per-child weights, clamped to per-child `[min, max]`
//! bounds, by the iterative water-filling fixed point.
//!
//! Each pass proposes `free / weight_sum * weight` to every still
//! unresolved child; a child whose proposal the clamp alters is locked at
//! its clamped length and leaves the pool, and the pass repeats, because
//! removing it changes the ratio for the rest. A pass that locks nobody
//! assigns the remaining children their proposals and terminates. Running
//! out of positive weight with children still unresolved is a solver
//! failure, not a division by zero.

use vstd::prelude::*;
use crate::num::{
    clip, clamped, ints, clip64, clamp64, div_floor, lemma_mul_bounds, lemma_div_within,
    lemma_ints_update, COORD_LIMIT, NODE_LIMIT, WEIGHT_LIMIT,
};
use crate::types::ChildConstraint;

verus! {

/// The distributor's working state: per-child lengths so far, which children
/// are locked, the unallocated length, the weight left in the pool, and how
/// many children are locked.
#[verifier::ext_equal]
pub ghost struct SpreadState {
    pub lens: Seq<int>,
    pub locked: Seq<bool>,
    pub free: int,
    pub wsum: int,
    pub nlocked: int,
}

/// Sum of the first `i` weights.
pub open spec fn weight_prefix(cs: Seq<ChildConstraint>, i: int) -> int
    decreases i,
{
    if i <= 0 {
        0
    } else {
        weight_prefix(cs, i - 1) + cs[i - 1].weight
    }
}

/// Sum of the first `i` weights of children not yet locked.
pub open spec fn unlocked_prefix(cs: Seq<ChildConstraint>, locked: Seq<bool>, i: int) -> int
    decreases i,
{
    if i <= 0 {
        0
    } else {
        unlocked_prefix(cs, locked, i - 1) + if locked[i - 1] {
            0
        } else {
            cs[i - 1].weight as int
        }
    }
}

/// How many of the first `i` children are locked.
pub open spec fn locked_count(locked: Seq<bool>, i: int) -> int
    decreases i,
{
    if i <= 0 {
        0
    } else {
        locked_count(locked, i - 1) + if locked[i - 1] {
            1int
        } else {
            0int
        }
    }
}

/// One candidate of a pass, at the fixed length-per-weight of the pass: a
/// child whose clamped proposal differs from the proposal is locked at the
/// clamped length.
pub open spec fn lock_step(cs: Seq<ChildConstraint>, lpw: int, st: SpreadState, i: int)
    -> SpreadState {
    if st.locked[i] {
        st
    } else {
        let len = lpw * cs[i].weight;
        let cl = clamped(len, cs[i].min_size as int, cs[i].max_size as int);
        if cl != len {
            SpreadState {
                lens: st.lens.update(i, cl),
                locked: st.locked.update(i, true),
                free: clip(st.free - cl),
                wsum: st.wsum - cs[i].weight,
                nlocked: st.nlocked + 1,
            }
        } else {
            st
        }
    }
}

/// A pass over the first `i` children, in order.
pub open spec fn lock_pass(cs: Seq<ChildConstraint>, lpw: int, st: SpreadState, i: int)
    -> SpreadState
    decreases i,
{
    if i <= 0 {
        st
    } else {
        lock_step(cs, lpw, lock_pass(cs, lpw, st, i - 1), i - 1)
    }
}

/// The lengths handed out when a pass locked nobody: locked children keep
/// their clamped lengths, the rest take their proposals.
pub open spec fn finish(cs: Seq<ChildConstraint>, lpw: int, st: SpreadState) -> Seq<int> {
    Seq::new(st.lens.len(), |i: int| if st.locked[i] {
        st.lens[i]
    } else {
        clip(lpw * cs[i].weight)
    })
}

/// The fixed-point iteration. A round either terminates (everyone locked, a
/// pass that locked nobody, or no positive weight left — the failure case)
/// or locks at least one child, so `cs.len()` rounds always suffice.
pub open spec fn rounds(cs: Seq<ChildConstraint>, st: SpreadState, fuel: nat)
    -> Result<Seq<int>, ()>
    decreases fuel,
{
    if st.nlocked >= cs.len() {
        Ok(st.lens)
    } else if st.wsum <= 0 {
        Err(())
    } else {
        let lpw = st.free / st.wsum;
        let st2 = lock_pass(cs, lpw, st, cs.len() as int);
        if st2.nlocked == st.nlocked {
            Ok(finish(cs, lpw, st))
        } else if fuel == 0 {
            Err(())
        } else {
            rounds(cs, st2, (fuel - 1) as nat)
        }
    }
}

/// The state the distributor starts from: nobody locked, the free length
/// is the axis length less the margins, the pool holds every weight.
pub open spec fn init_state(cs: Seq<ChildConstraint>, axis: int, margin: int) -> SpreadState {
    SpreadState {
        lens: Seq::new(cs.len(), |i: int| 0),
        locked: Seq::new(cs.len(), |i: int| false),
        free: clip(axis - margin * (cs.len() as int - 1)),
        wsum: weight_prefix(cs, cs.len() as int),
        nlocked: 0,
    }
}

/// The spec state a set of executable locals stands for.
pub open spec fn st_of(lens: Seq<i64>, locked: Seq<bool>, free: i64, wsum: i64, nlocked: usize)
    -> SpreadState {
    SpreadState {
        lens: ints(lens),
        locked: locked,
        free: free as int,
        wsum: wsum as int,
        nlocked: nlocked as int,
    }
}

/// What the distributor returns: the per-child lengths, or failure when the
/// pool's weight runs out with children still unresolved.
pub open spec fn distribute_spec(cs: Seq<ChildConstraint>, axis: int, margin: int)
    -> Result<Seq<int>, ()> {
    if cs.len() == 0 {
        Ok(Seq::empty())
    } else {
        rounds(cs, init_state(cs, axis, margin), cs.len() as nat)
    }
}

/// Admissible distributor input.
pub open spec fn cons_wf(cs: Seq<ChildConstraint>) -> bool {
    &&& cs.len() <= NODE_LIMIT
    &&& forall|i: int| 0 <= i < cs.len() ==> (#[trigger] cs[i]).wf()
}

/// Distributor state invariant tying the bookkeeping fields to the
/// sequences.
pub open spec fn st_wf(cs: Seq<ChildConstraint>, st: SpreadState) -> bool {
    &&& st.lens.len() == cs.len()
    &&& st.locked.len() == cs.len()
    &&& st.nlocked == locked_count(st.locked, cs.len() as int)
    &&& st.wsum == unlocked_prefix(cs, st.locked, cs.len() as int)
    &&& -COORD_LIMIT <= st.free <= COORD_LIMIT
    &&& forall|i: int| 0 <= i < cs.len() && st.locked[i]
        ==> cs[i].min_size <= #[trigger] st.lens[i] <= cs[i].max_size
}

/// A locked count never exceeds the prefix length, and a full count means
/// everyone is locked.
pub proof fn lemma_locked_count_le(locked: Seq<bool>, i: int)
    requires
        0 <= i,
    ensures
        locked_count(locked, i) <= i,
        locked_count(locked, i) == i ==> forall|j: int| 0 <= j < i ==> locked[j],
    decreases i,
{
    if i > 0 {
        lemma_locked_count_le(locked, i - 1);
    }
}

/// Sums over unlocked weights are bounded and contain each unlocked weight.
pub proof fn lemma_unlocked_prefix_bounds(cs: Seq<ChildConstraint>, locked: Seq<bool>, i: int)
    requires
        0 <= i <= cs.len(),
        cons_wf(cs),
    ensures
        0 <= unlocked_prefix(cs, locked, i) <= WEIGHT_LIMIT as int * i,
        forall|k: int| 0 <= k < i && !locked[k]
            ==> (cs[k].weight as int) <= unlocked_prefix(cs, locked, i),
    decreases i,
{
    if i > 0 {
        lemma_unlocked_prefix_bounds(cs, locked, i - 1);
    }
}

/// Locking one child removes exactly its weight from the pool and adds one
/// to the count.
pub proof fn lemma_prefix_update(cs: Seq<ChildConstraint>, locked: Seq<bool>, k: int, i: int)
    requires
        0 <= k < locked.len(),
        i <= locked.len(),
        !locked[k],
    ensures
        unlocked_prefix(cs, locked.update(k, true), i) == unlocked_prefix(cs, locked, i)
            - if k < i { cs[k].weight as int } else { 0 },
        locked_count(locked.update(k, true), i) == locked_count(locked, i)
            + if k < i { 1int } else { 0 },
    decreases i,
{
    if i > 0 {
        lemma_prefix_update(cs, locked, k, i - 1);
    }
}

/// A pass never unlocks: its count is monotone, its state changes only by
/// locking, and it leaves every index it has not yet reached untouched.
pub proof fn lemma_lock_pass_untouched(cs: Seq<ChildConstraint>, lpw: int, st: SpreadState,
    i: int, j: int)
    requires
        i <= j,
        i <= st.locked.len(),
        i <= st.lens.len(),
    ensures
        lock_pass(cs, lpw, st, i).locked.len() == st.locked.len(),
        lock_pass(cs, lpw, st, i).lens.len() == st.lens.len(),
        j < st.locked.len() ==> lock_pass(cs, lpw, st, i).locked[j] == st.locked[j],
        j < st.lens.len() ==> lock_pass(cs, lpw, st, i).lens[j] == st.lens[j],
    decreases i,
{
    if i > 0 {
        lemma_lock_pass_untouched(cs, lpw, st, i - 1, j);
    }
}

/// A pass's locked count is monotone, and a pass that locked nobody changed
/// nothing.
pub proof fn lemma_lock_pass_stable(cs: Seq<ChildConstraint>, lpw: int, st: SpreadState, i: int)
    ensures
        lock_pass(cs, lpw, st, i).nlocked >= st.nlocked,
        lock_pass(cs, lpw, st, i).nlocked == st.nlocked ==> lock_pass(cs, lpw, st, i) == st,
    decreases i,
{
    if i > 0 {
        lemma_lock_pass_stable(cs, lpw, st, i - 1);
    }
}

/// A pass that locked nobody found every unresolved proposal inside its
/// clamp bounds.
pub proof fn lemma_lock_pass_all_fit(cs: Seq<ChildConstraint>, lpw: int, st: SpreadState, i: int)
    requires
        i <= st.locked.len(),
        i <= st.lens.len(),
        lock_pass(cs, lpw, st, i).nlocked == st.nlocked,
    ensures
        forall|j: int| 0 <= j < i && !st.locked[j]
            ==> clamped(lpw * ((#[trigger] cs[j]).weight as int), cs[j].min_size as int,
                cs[j].max_size as int) == lpw * (cs[j].weight as int),
    decreases i,
{
    if i > 0 {
        lemma_lock_pass_stable(cs, lpw, st, i - 1);
        lemma_lock_pass_stable(cs, lpw, st, i);
        lemma_lock_pass_untouched(cs, lpw, st, i - 1, i - 1);
        lemma_lock_pass_all_fit(cs, lpw, st, i - 1);
    }
}

/// The iterative clamp-and-redistribute fixed point, executable form.
/// Returns, for each child in order, its final length along the spread axis;
/// fails exactly when the weight pool runs out before every child is
/// resolved.
pub fn distribute(axis_length: i64, margin: i64, cons: &Vec<ChildConstraint>)
    -> (r: Result<Vec<i64>, ()>)
    requires
        -COORD_LIMIT <= axis_length <= COORD_LIMIT,
        -COORD_LIMIT <= margin <= COORD_LIMIT,
        cons_wf(cons@),
    ensures
        ({
            let m = distribute_spec(cons@, axis_length as int, margin as int);
            match r {
                Ok(v) => m is Ok && ints(v@) == m->Ok_0,
                Err(e) => m is Err,
            }
        }),
{
    let n: usize = cons.len();
    if n == 0 {
        let empty: Vec<i64> = Vec::new();
        proof {
            assert(ints(empty@) =~= Seq::<int>::empty());
        }
        return Ok(empty);
    }
    proof {
        lemma_mul_bounds(margin as int, (n - 1) as int, COORD_LIMIT as int, NODE_LIMIT as int);
    }
    let total_margin: i64 = margin * ((n - 1) as i64);
    let mut free: i64 = clip64(axis_length - total_margin);

    let mut wsum: i64 = 0;
    let mut k: usize = 0;
    while k < n
        invariant
            n == cons@.len(),
            cons_wf(cons@),
            k <= n,
            wsum == weight_prefix(cons@, k as int),
            0 <= wsum <= WEIGHT_LIMIT as int * (k as int),
        decreases n - k,
    {
        wsum = wsum + cons[k].weight;
        k = k + 1;
    }

    let mut lens: Vec<i64> = Vec::new();
    let mut locked: Vec<bool> = Vec::new();
    let mut j: usize = 0;
    while j < n
        invariant
            j == lens@.len(),
            j == locked@.len(),
            j <= n,
            forall|i: int| 0 <= i < j ==> lens@[i] == 0i64,
            forall|i: int| 0 <= i < j ==> locked@[i] == false,
        decreases n - j,
    {
        lens.push(0);
        locked.push(false);
        j = j + 1;
    }
    let mut nlocked: usize = 0;

    let ghost cs = cons@;
    let ghost target = distribute_spec(cs, axis_length as int, margin as int);
    let ghost mut fuel: nat = n as nat;
    proof {
        assert(ints(lens@) =~= init_state(cs, axis_length as int, margin as int).lens);
        assert(locked@ =~= init_state(cs, axis_length as int, margin as int).locked);
        assert(st_of(lens@, locked@, free, wsum, nlocked)
            =~= init_state(cs, axis_length as int, margin as int));
        lemma_unlocked_all_free(cs, locked@, n as int);
    }

    loop
        invariant
            n == cs.len(),
            n >= 1,
            cons@ == cs,
            cons_wf(cs),
            nlocked <= n,
            st_wf(cs, st_of(lens@, locked@, free, wsum, nlocked)),
            target == distribute_spec(cs, axis_length as int, margin as int),
            rounds(cs, st_of(lens@, locked@, free, wsum, nlocked), fuel) == target,
            fuel + nlocked >= n,
        decreases n - nlocked,
    {
        let ghost st0 = st_of(lens@, locked@, free, wsum, nlocked);
        if nlocked == n {
            return Ok(lens);
        }
        if wsum <= 0 {
            return Err(());
        }
        let lpw: i64 = div_floor(free, wsum);
        proof {
            lemma_div_within(free as int, wsum as int);
        }

        let mut dirty: bool = false;
        let mut k2: usize = 0;
        while k2 < n
            invariant
                n == cs.len(),
                cons@ == cs,
                cons_wf(cs),
                k2 <= n,
                nlocked <= n,
                st0.nlocked < n,
                -COORD_LIMIT <= lpw <= COORD_LIMIT,
                st_wf(cs, st_of(lens@, locked@, free, wsum, nlocked)),
                st_of(lens@, locked@, free, wsum, nlocked)
                    == lock_pass(cs, lpw as int, st0, k2 as int),
                dirty == (nlocked > st0.nlocked),
            decreases n - k2,
        {
            let ghost st_in = st_of(lens@, locked@, free, wsum, nlocked);
            if !locked[k2] {
                proof {
                    lemma_mul_bounds(lpw as int, cons@[k2 as int].weight as int,
                        COORD_LIMIT as int, WEIGHT_LIMIT as int);
                }
                let len: i64 = lpw * cons[k2].weight;
                let cl: i64 = clamp64(len, cons[k2].min_size, cons[k2].max_size);
                if cl != len {
                    proof {
                        lemma_unlocked_prefix_bounds(cs, locked@, n as int);
                        lemma_prefix_update(cs, locked@, k2 as int, n as int);
                        lemma_ints_update(lens@, k2 as int, cl);
                    }
                    dirty = true;
                    lens.set(k2, cl);
                    locked.set(k2, true);
                    free = clip64(free - cl);
                    wsum = wsum - cons[k2].weight;
                    nlocked = nlocked + 1;
                    proof {
                        lemma_locked_count_le(locked@, n as int);
                        assert(st_of(lens@, locked@, free, wsum, nlocked)
                            =~= lock_step(cs, lpw as int, st_in, k2 as int));
                        lemma_lock_pass_stable(cs, lpw as int, st0, k2 as int);
                    }
                } else {
                    proof {
                        assert(st_of(lens@, locked@, free, wsum, nlocked)
                            =~= lock_step(cs, lpw as int, st_in, k2 as int));
                    }
                }
            } else {
                proof {
                    assert(st_of(lens@, locked@, free, wsum, nlocked)
                        =~= lock_step(cs, lpw as int, st_in, k2 as int));
                }
            }
            k2 = k2 + 1;
        }

        if !dirty {
            proof {
                lemma_lock_pass_untouched(cs, lpw as int, st0, n as int, n as int);
                lemma_lock_pass_stable(cs, lpw as int, st0, n as int);
                lemma_lock_pass_all_fit(cs, lpw as int, st0, n as int);
                assert(rounds(cs, st0, fuel) == Ok::<Seq<int>, ()>(finish(cs, lpw as int, st0)));
            }
            let mut k3: usize = 0;
            while k3 < n
                invariant
                    n == cs.len(),
                    cons@ == cs,
                    cons_wf(cs),
                    k3 <= n,
                    -COORD_LIMIT <= lpw <= COORD_LIMIT,
                    lens@.len() == n,
                    locked@ == st0.locked,
                    st0.locked.len() == n,
                    st0.lens.len() == n,
                    target == distribute_spec(cs, axis_length as int, margin as int),
                    target == Ok::<Seq<int>, ()>(finish(cs, lpw as int, st0)),
                    forall|i: int| 0 <= i < n
                        ==> ints(lens@)[i] == if i < k3 {
                            finish(cs, lpw as int, st0)[i]
                        } else {
                            st0.lens[i]
                        },
                decreases n - k3,
            {
                if !locked[k3] {
                    proof {
                        lemma_mul_bounds(lpw as int, cons@[k3 as int].weight as int,
                            COORD_LIMIT as int, WEIGHT_LIMIT as int);
                    }
                    let len: i64 = lpw * cons[k3].weight;
                    let v: i64 = clip64(len);
                    proof {
                        lemma_ints_update(lens@, k3 as int, v);
                    }
                    lens.set(k3, v);
                }
                k3 = k3 + 1;
            }
            proof {
                assert(ints(lens@) =~= finish(cs, lpw as int, st0));
            }
            return Ok(lens);
        }
        proof {
            lemma_lock_pass_stable(cs, lpw as int, st0, n as int);
            lemma_locked_count_le(locked@, n as int);
            assert(rounds(cs, st0, fuel)
                == rounds(cs, lock_pass(cs, lpw as int, st0, n as int), (fuel - 1) as nat));
            fuel = (fuel - 1) as nat;
        }
    }
}

/// Sum of the first `i` assigned lengths.
pub open spec fn lens_sum(lens: Seq<int>, i: int) -> int
    decreases i,
{
    if i <= 0 {
        0
    } else {
        lens_sum(lens, i - 1) + lens[i - 1]
    }
}

/// A pass preserves the distributor's state invariant.
proof fn lemma_lock_pass_wf(cs: Seq<ChildConstraint>, lpw: int, st: SpreadState, i: int)
    requires
        cons_wf(cs),
        0 <= i <= cs.len(),
        st.lens.len() == cs.len(),
        st.locked.len() == cs.len(),
        st.nlocked == locked_count(st.locked, cs.len() as int),
        forall|j: int| 0 <= j < cs.len() && st.locked[j]
            ==> cs[j].min_size <= #[trigger] st.lens[j] <= cs[j].max_size,
    ensures
        ({
            let st2 = lock_pass(cs, lpw, st, i);
            &&& st2.lens.len() == cs.len()
            &&& st2.locked.len() == cs.len()
            &&& st2.nlocked == locked_count(st2.locked, cs.len() as int)
            &&& forall|j: int| 0 <= j < cs.len() && st2.locked[j]
                ==> cs[j].min_size <= #[trigger] st2.lens[j] <= cs[j].max_size
        }),
    decreases i,
{
    if i > 0 {
        lemma_lock_pass_wf(cs, lpw, st, i - 1);
        let stp = lock_pass(cs, lpw, st, i - 1);
        if !stp.locked[i - 1] {
            let len = lpw * cs[i - 1].weight;
            let cl = clamped(len, cs[i - 1].min_size as int, cs[i - 1].max_size as int);
            if cl != len {
                lemma_prefix_update(cs, stp.locked, i - 1, cs.len() as int);
            }
        }
    }
}

/// Every length the fixed point hands out lies inside its child's clamp
/// bounds.
proof fn lemma_rounds_within(cs: Seq<ChildConstraint>, st: SpreadState, fuel: nat)
    requires
        cons_wf(cs),
        st.lens.len() == cs.len(),
        st.locked.len() == cs.len(),
        st.nlocked == locked_count(st.locked, cs.len() as int),
        forall|j: int| 0 <= j < cs.len() && st.locked[j]
            ==> cs[j].min_size <= #[trigger] st.lens[j] <= cs[j].max_size,
        rounds(cs, st, fuel) is Ok,
    ensures
        rounds(cs, st, fuel)->Ok_0.len() == cs.len(),
        forall|j: int| 0 <= j < cs.len()
            ==> cs[j].min_size <= #[trigger] rounds(cs, st, fuel)->Ok_0[j] <= cs[j].max_size,
    decreases fuel,
{
    let n = cs.len() as int;
    if st.nlocked >= n {
        lemma_locked_count_le(st.locked, n);
    } else {
        let lpw = st.free / st.wsum;
        let st2 = lock_pass(cs, lpw, st, n);
        lemma_lock_pass_wf(cs, lpw, st, n);
        if st2.nlocked == st.nlocked {
            lemma_lock_pass_all_fit(cs, lpw, st, n);
        } else {
            lemma_rounds_within(cs, st2, (fuel - 1) as nat);
        }
    }
}

/// Spread clamp correctness, stated of every admissible input: whenever the
/// distributor succeeds, each child's final length lies inside that child's
/// `[min, max]` bounds; a child whose proposal overran was pinned at the
/// bound by the pass that locked it.
pub proof fn lemma_spread_clamp_correct(cs: Seq<ChildConstraint>, axis: int, margin: int)
    requires
        cons_wf(cs),
        distribute_spec(cs, axis, margin) is Ok,
    ensures
        distribute_spec(cs, axis, margin)->Ok_0.len() == cs.len(),
        forall|j: int| 0 <= j < cs.len()
            ==> cs[j].min_size
                <= #[trigger] distribute_spec(cs, axis, margin)->Ok_0[j]
                <= cs[j].max_size,
{
    if cs.len() > 0 {
        let st = init_state(cs, axis, margin);
        lemma_unlocked_all_free(cs, st.locked, cs.len() as int);
        lemma_rounds_within(cs, st, cs.len() as nat);
    }
}

/// A pass in which every unresolved proposal already fits changes nothing.
proof fn lemma_lock_pass_noop(cs: Seq<ChildConstraint>, lpw: int, st: SpreadState, i: int)
    requires
        0 <= i,
        forall|j: int| 0 <= j < i && !st.locked[j]
            ==> clamped(lpw * ((#[trigger] cs[j]).weight as int), cs[j].min_size as int,
                cs[j].max_size as int) == lpw * (cs[j].weight as int),
    ensures
        lock_pass(cs, lpw, st, i) == st,
    decreases i,
{
    if i > 0 {
        lemma_lock_pass_noop(cs, lpw, st, i - 1);
    }
}

/// Lengths proportional to the weights sum to the length-per-weight times
/// the weight sum.
proof fn lemma_sum_proportional(cs: Seq<ChildConstraint>, lpw: int, lens: Seq<int>, i: int)
    requires
        0 <= i,
        forall|j: int| 0 <= j < i ==> #[trigger] lens[j] == lpw * (cs[j].weight as int),
    ensures
        lens_sum(lens, i) == lpw * weight_prefix(cs, i),
    decreases i,
{
    if i > 0 {
        lemma_sum_proportional(cs, lpw, lens, i - 1);
        assert(lpw * (weight_prefix(cs, i - 1) + cs[i - 1].weight)
            == lpw * weight_prefix(cs, i - 1) + lpw * (cs[i - 1].weight as int))
            by (nonlinear_arith);
    }
}

/// Spread conservation: when no child's clamp interferes, every child takes
/// its exact proportional share of the free length, and the shares sum to
/// `(free / W) * W` — at most the free length, and short of it by less than
/// the weight sum `W` (exactly the free length whenever `W` divides it).
pub proof fn lemma_spread_conservation(cs: Seq<ChildConstraint>, axis: int, margin: int)
    requires
        cons_wf(cs),
        cs.len() >= 1,
        ({
            let free0 = axis - margin * (cs.len() as int - 1);
            let w = weight_prefix(cs, cs.len() as int);
            &&& -COORD_LIMIT <= free0 <= COORD_LIMIT
            &&& w >= 1
            &&& forall|j: int| 0 <= j < cs.len()
                ==> cs[j].min_size <= (free0 / w) * ((#[trigger] cs[j]).weight as int)
                    <= cs[j].max_size
        }),
    ensures
        ({
            let free0 = axis - margin * (cs.len() as int - 1);
            let w = weight_prefix(cs, cs.len() as int);
            let m = distribute_spec(cs, axis, margin);
            &&& m is Ok
            &&& forall|j: int| 0 <= j < cs.len()
                ==> #[trigger] m->Ok_0[j] == (free0 / w) * (cs[j].weight as int)
            &&& lens_sum(m->Ok_0, cs.len() as int) == (free0 / w) * w
            &&& free0 - w < lens_sum(m->Ok_0, cs.len() as int) <= free0
            &&& free0 % w == 0 ==> lens_sum(m->Ok_0, cs.len() as int) == free0
        }),
{
    let n = cs.len() as int;
    let free0 = axis - margin * (n - 1);
    let w = weight_prefix(cs, n);
    let st = init_state(cs, axis, margin);
    lemma_unlocked_all_free(cs, st.locked, n);
    let lpw = free0 / w;
    lemma_lock_pass_noop(cs, lpw, st, n);
    let out = finish(cs, lpw, st);
    assert(rounds(cs, st, cs.len() as nat) == Ok::<Seq<int>, ()>(out));
    assert forall|j: int| 0 <= j < n implies #[trigger] out[j]
        == lpw * (cs[j].weight as int) by {
        assert(cs[j].wf());
    }
    lemma_sum_proportional(cs, lpw, out, n);
    vstd::arithmetic::div_mod::lemma_fundamental_div_mod(free0, w);
    vstd::arithmetic::div_mod::lemma_mod_bound(free0, w);
}

/// Spread failure: a spread whose children all carry weight zero (with at
/// least one child) fails as a configuration error rather than dividing by
/// the empty pool.
pub proof fn lemma_spread_zero_weights(cs: Seq<ChildConstraint>, axis: int, margin: int)
    requires
        cs.len() >= 1,
        forall|j: int| 0 <= j < cs.len() ==> (#[trigger] cs[j]).weight == 0,
    ensures
        distribute_spec(cs, axis, margin) is Err,
{
    lemma_zero_weight_prefix(cs, cs.len() as int);
}

/// All-zero weights sum to zero.
proof fn lemma_zero_weight_prefix(cs: Seq<ChildConstraint>, i: int)
    requires
        i <= cs.len(),
        forall|j: int| 0 <= j < cs.len() ==> (#[trigger] cs[j]).weight == 0,
    ensures
        weight_prefix(cs, i) == 0,
    decreases i,
{
    if i > 0 {
        lemma_zero_weight_prefix(cs, i - 1);
    }
}

/// Spread idempotence: the distributor's outcome is a function of its
/// explicit inputs alone — no hidden state — so two runs over identical
/// inputs yield identical outcomes.
pub proof fn lemma_spread_idempotent(cs: Seq<ChildConstraint>, axis: int, margin: int,
    r1: Result<Seq<int>, ()>, r2: Result<Seq<int>, ()>)
    requires
        r1 == distribute_spec(cs, axis, margin),
        r2 == distribute_spec(cs, axis, margin),
    ensures
        r1 == r2,
{
}

/// Everyone-free pool equals the plain weight sum, and counts nobody locked.
pub proof fn lemma_unlocked_all_free(cs: Seq<ChildConstraint>, locked: Seq<bool>, i: int)
    requires
        forall|j: int| 0 <= j < i ==> locked[j] == false,
    ensures
        unlocked_prefix(cs, locked, i) == weight_prefix(cs, i),
        locked_count(locked, i) == 0,
    decreases i,
{
    if i > 0 {
        lemma_unlocked_all_free(cs, locked, i - 1);
    }
}

} // verus!
