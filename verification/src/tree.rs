//! The tree walker and the change-tracking gate.
//!
//! The walker is a depth-first recursive solver over an arena tree store:
//! given a node and an available space it resolves the node's own offset and
//! size (per axis, with aspect coupling where configured), assigns the
//! derived z for its depth, and dispatches to each child with the space it
//! was just given — or, for spread containers, with the sub-rectangle the
//! spread distributor allots. A gate wraps the walker: under unchanged
//! spread nodes it can replay cached child sizes instead of re-deriving
//! them, when told to respect the change flags.
//!
//! Everything the solver writes is pinned, node for node and write for
//! write, by the functional model `solve_m` below: the executable walker's
//! contract states that its effect on the store equals the model's.

use vstd::prelude::*;
use crate::num::{
    clip, ints, clip64, div_floor, lemma_mul_bounds, lemma_div_within, COORD_LIMIT,
    ASPECT_LIMIT, NODE_LIMIT, UI_Z_STEP, ROOT_Z,
};
use crate::types::{ANode, AxisConstraint, Constraint, Direction, SolveError, ChildConstraint};
use crate::axis::axis_result;
use crate::spread::{distribute, distribute_spec, cons_wf};

verus! {

/// The z range the solver accepts at an entry point; depth steps stay far
/// inside it.
pub const Z_LIMIT: i64 = 1_000_000_000;

/// The arena tree store the solver works on. Configuration (`conf`, `kids`)
/// and change flags are written by the host; translation, size, spread
/// offset and the spread size cache are written by the solver.
pub struct Tree {
    /// Per-node layout configuration.
    pub conf: Vec<ANode>,
    /// Per-node ordered child identifier list.
    pub kids: Vec<Vec<usize>>,
    /// Host-maintained "dirty since last solve" flag of the node itself.
    pub changed: Vec<bool>,
    /// Host-maintained flag of the node's child list (membership or order).
    pub kids_changed: Vec<bool>,
    /// Resulting translation, x component.
    pub tx: Vec<i64>,
    /// Resulting translation, y component.
    pub ty: Vec<i64>,
    /// Resulting translation, z component (derived from depth).
    pub tz: Vec<i64>,
    /// Resulting width.
    pub sw: Vec<i64>,
    /// Resulting height.
    pub sh: Vec<i64>,
    /// Spread-assigned offset, x component (written by the parent's spread
    /// pass, added by the child's own solve).
    pub sox: Vec<i64>,
    /// Spread-assigned offset, y component.
    pub soy: Vec<i64>,
    /// Cached per-child sizes of the node's last spread pass.
    pub cache: Vec<Option<Vec<(i64, i64)>>>,
}

/// Mathematical image of a tree store.
#[verifier::ext_equal]
pub ghost struct TreeV {
    pub conf: Seq<ANode>,
    pub kids: Seq<Seq<usize>>,
    pub changed: Seq<bool>,
    pub kids_changed: Seq<bool>,
    pub tx: Seq<i64>,
    pub ty: Seq<i64>,
    pub tz: Seq<i64>,
    pub sw: Seq<i64>,
    pub sh: Seq<i64>,
    pub sox: Seq<i64>,
    pub soy: Seq<i64>,
    pub cache: Seq<Option<Seq<(i64, i64)>>>,
}

/// One cache slot read as a sequence.
pub open spec fn cache_view(c: Option<Vec<(i64, i64)>>) -> Option<Seq<(i64, i64)>> {
    match c {
        Some(v) => Some(v@),
        None => None,
    }
}

impl View for Tree {
    type V = TreeV;

    open spec fn view(&self) -> TreeV {
        TreeV {
            conf: self.conf@,
            kids: Seq::new(self.kids@.len(), |i: int| self.kids@[i]@),
            changed: self.changed@,
            kids_changed: self.kids_changed@,
            tx: self.tx@,
            ty: self.ty@,
            tz: self.tz@,
            sw: self.sw@,
            sh: self.sh@,
            sox: self.sox@,
            soy: self.soy@,
            cache: Seq::new(self.cache@.len(), |i: int| cache_view(self.cache@[i])),
        }
    }
}

impl TreeV {
    /// Node count.
    pub open spec fn len(self) -> int {
        self.conf.len() as int
    }

    /// Well-formed store: parallel columns of one length, admissible
    /// configuration, child identifiers in bounds, and solver-written
    /// values inside the coordinate range.
    pub open spec fn wf(self) -> bool {
        &&& self.conf.len() <= NODE_LIMIT
        &&& self.kids.len() == self.len()
        &&& self.changed.len() == self.len()
        &&& self.kids_changed.len() == self.len()
        &&& self.tx.len() == self.len()
        &&& self.ty.len() == self.len()
        &&& self.tz.len() == self.len()
        &&& self.sw.len() == self.len()
        &&& self.sh.len() == self.len()
        &&& self.sox.len() == self.len()
        &&& self.soy.len() == self.len()
        &&& self.cache.len() == self.len()
        &&& forall|i: int| 0 <= i < self.len() ==> (#[trigger] self.conf[i]).wf()
        &&& forall|i: int| 0 <= i < self.len() ==> (#[trigger] self.kids[i]).len() <= NODE_LIMIT
        &&& forall|i: int, j: int| 0 <= i < self.len() && 0 <= j < self.kids[i].len()
            ==> (#[trigger] self.kids[i][j]) < self.len()
        &&& forall|i: int| 0 <= i < self.len()
            ==> -COORD_LIMIT <= #[trigger] self.tx[i] <= COORD_LIMIT
        &&& forall|i: int| 0 <= i < self.len()
            ==> -COORD_LIMIT <= #[trigger] self.ty[i] <= COORD_LIMIT
        &&& forall|i: int| 0 <= i < self.len()
            ==> -COORD_LIMIT <= #[trigger] self.sw[i] <= COORD_LIMIT
        &&& forall|i: int| 0 <= i < self.len()
            ==> -COORD_LIMIT <= #[trigger] self.sh[i] <= COORD_LIMIT
        &&& forall|i: int| 0 <= i < self.len()
            ==> -COORD_LIMIT <= #[trigger] self.sox[i] <= COORD_LIMIT
        &&& forall|i: int| 0 <= i < self.len()
            ==> -COORD_LIMIT <= #[trigger] self.soy[i] <= COORD_LIMIT
        &&& forall|i: int, j: int| 0 <= i < self.len() && self.cache[i] is Some
            && 0 <= j < self.cache[i]->Some_0.len()
            ==> -COORD_LIMIT <= (#[trigger] self.cache[i]->Some_0[j]).0 <= COORD_LIMIT
                && -COORD_LIMIT <= self.cache[i]->Some_0[j].1 <= COORD_LIMIT
    }
}

/// One node's share of the store invariant.
pub open spec fn row_wf(t: TreeV, i: int) -> bool {
    &&& t.conf[i].wf()
    &&& t.kids[i].len() <= NODE_LIMIT
    &&& forall|j: int| 0 <= j < t.kids[i].len() ==> (#[trigger] t.kids[i][j]) < t.len()
    &&& -COORD_LIMIT <= t.tx[i] <= COORD_LIMIT
    &&& -COORD_LIMIT <= t.ty[i] <= COORD_LIMIT
    &&& -COORD_LIMIT <= t.sw[i] <= COORD_LIMIT
    &&& -COORD_LIMIT <= t.sh[i] <= COORD_LIMIT
    &&& -COORD_LIMIT <= t.sox[i] <= COORD_LIMIT
    &&& -COORD_LIMIT <= t.soy[i] <= COORD_LIMIT
    &&& t.cache[i] is Some ==> forall|j: int| 0 <= j < t.cache[i]->Some_0.len()
        ==> -COORD_LIMIT <= (#[trigger] t.cache[i]->Some_0[j]).0 <= COORD_LIMIT
            && -COORD_LIMIT <= t.cache[i]->Some_0[j].1 <= COORD_LIMIT
}

/// The columns of the store are parallel and the node count is admitted.
pub open spec fn cols_wf(t: TreeV) -> bool {
    &&& t.conf.len() <= NODE_LIMIT
    &&& t.kids.len() == t.len()
    &&& t.changed.len() == t.len()
    &&& t.kids_changed.len() == t.len()
    &&& t.tx.len() == t.len()
    &&& t.ty.len() == t.len()
    &&& t.tz.len() == t.len()
    &&& t.sw.len() == t.len()
    &&& t.sh.len() == t.len()
    &&& t.sox.len() == t.len()
    &&& t.soy.len() == t.len()
    &&& t.cache.len() == t.len()
}

/// The store invariant is exactly: parallel columns, and every row's share.
pub proof fn lemma_wf_rows(t: TreeV)
    ensures
        t.wf() == (cols_wf(t) && forall|i: int| 0 <= i < t.len() ==> #[trigger] row_wf(t, i)),
{
    if t.wf() {
        assert forall|i: int| 0 <= i < t.len() implies #[trigger] row_wf(t, i) by {
            assert(t.conf[i].wf());
            assert(t.kids[i].len() <= NODE_LIMIT);
            assert forall|j: int| 0 <= j < t.kids[i].len()
                implies (#[trigger] t.kids[i][j]) < t.len() by {
                assert(t.kids[i][j] < t.len());
            }
            if t.cache[i] is Some {
                assert forall|j: int| 0 <= j < t.cache[i]->Some_0.len()
                    implies -COORD_LIMIT <= (#[trigger] t.cache[i]->Some_0[j]).0
                        <= COORD_LIMIT
                        && -COORD_LIMIT <= t.cache[i]->Some_0[j].1 <= COORD_LIMIT by {
                    assert(-COORD_LIMIT <= t.cache[i]->Some_0[j].0 <= COORD_LIMIT);
                }
            }
        }
    }
    if cols_wf(t) && (forall|i: int| 0 <= i < t.len() ==> #[trigger] row_wf(t, i)) {
        assert forall|i: int| 0 <= i < t.len() implies (#[trigger] t.conf[i]).wf() by {
            assert(row_wf(t, i));
        }
        assert forall|i: int| 0 <= i < t.len()
            implies (#[trigger] t.kids[i]).len() <= NODE_LIMIT by {
            assert(row_wf(t, i));
        }
        assert forall|i: int, j: int| 0 <= i < t.len() && 0 <= j < t.kids[i].len()
            implies (#[trigger] t.kids[i][j]) < t.len() by {
            assert(row_wf(t, i));
        }
        assert forall|i: int| 0 <= i < t.len()
            implies -COORD_LIMIT <= #[trigger] t.tx[i] <= COORD_LIMIT by {
            assert(row_wf(t, i));
        }
        assert forall|i: int| 0 <= i < t.len()
            implies -COORD_LIMIT <= #[trigger] t.ty[i] <= COORD_LIMIT by {
            assert(row_wf(t, i));
        }
        assert forall|i: int| 0 <= i < t.len()
            implies -COORD_LIMIT <= #[trigger] t.sw[i] <= COORD_LIMIT by {
            assert(row_wf(t, i));
        }
        assert forall|i: int| 0 <= i < t.len()
            implies -COORD_LIMIT <= #[trigger] t.sh[i] <= COORD_LIMIT by {
            assert(row_wf(t, i));
        }
        assert forall|i: int| 0 <= i < t.len()
            implies -COORD_LIMIT <= #[trigger] t.sox[i] <= COORD_LIMIT by {
            assert(row_wf(t, i));
        }
        assert forall|i: int| 0 <= i < t.len()
            implies -COORD_LIMIT <= #[trigger] t.soy[i] <= COORD_LIMIT by {
            assert(row_wf(t, i));
        }
        assert forall|i: int, j: int| 0 <= i < t.len() && t.cache[i] is Some
            && 0 <= j < t.cache[i]->Some_0.len()
            implies -COORD_LIMIT <= (#[trigger] t.cache[i]->Some_0[j]).0 <= COORD_LIMIT
                && -COORD_LIMIT <= t.cache[i]->Some_0[j].1 <= COORD_LIMIT by {
            assert(row_wf(t, i));
        }
        assert(t.wf());
    }
}

/// Configuration and flags are the host's; a solve pass leaves them alone.
pub open spec fn config_unchanged(a: TreeV, b: TreeV) -> bool {
    &&& b.conf == a.conf
    &&& b.kids == a.kids
    &&& b.changed == a.changed
    &&& b.kids_changed == a.kids_changed
    &&& b.tx.len() == a.tx.len()
    &&& b.ty.len() == a.ty.len()
    &&& b.tz.len() == a.tz.len()
    &&& b.sw.len() == a.sw.len()
    &&& b.sh.len() == a.sh.len()
    &&& b.sox.len() == a.sox.len()
    &&& b.soy.len() == a.soy.len()
    &&& b.cache.len() == a.cache.len()
}

/// The solver's outcome read as a `Result`.
pub open spec fn res_of(e: Option<SolveError>) -> Result<(), SolveError> {
    match e {
        None => Ok(()),
        Some(er) => Err(er),
    }
}

/// A node's own layout: offset of its center within the handed space (for
/// the variants that produce one) and its size.
pub ghost struct OwnLayout {
    pub ox: i64,
    pub oy: i64,
    pub has_offset: bool,
    pub w: i64,
    pub h: i64,
}

/// Resolve a node's own offset and size from its configuration and the
/// space it was handed. `MaxAspect` only sizes — it produces no offset.
pub open spec fn own_layout(node: ANode, sx: i64, sy: i64) -> OwnLayout {
    match node.constraint {
        Constraint::Independent { x, y } => {
            let xr = axis_result(x, node.anchors.left as int, node.anchors.right as int,
                sx as int);
            let yr = axis_result(y, node.anchors.bottom as int, node.anchors.top as int,
                sy as int);
            OwnLayout {
                ox: xr.0 as i64,
                oy: yr.0 as i64,
                has_offset: true,
                w: xr.1 as i64,
                h: yr.1 as i64,
            }
        },
        Constraint::SetXWithY { y, aspect } => {
            let yr = axis_result(y, node.anchors.bottom as int, node.anchors.top as int,
                sy as int);
            let xs = clip(yr.1 * aspect.num / (aspect.den as int)) as i64;
            let xr = axis_result(AxisConstraint::Centered(xs), node.anchors.left as int,
                node.anchors.right as int, sx as int);
            OwnLayout {
                ox: xr.0 as i64,
                oy: yr.0 as i64,
                has_offset: true,
                w: xr.1 as i64,
                h: yr.1 as i64,
            }
        },
        Constraint::SetYWithX { x, aspect } => {
            let xr = axis_result(x, node.anchors.left as int, node.anchors.right as int,
                sx as int);
            let ys = clip(xr.1 * aspect.den / (aspect.num as int)) as i64;
            let yr = axis_result(AxisConstraint::Centered(ys), node.anchors.bottom as int,
                node.anchors.top as int, sy as int);
            OwnLayout {
                ox: xr.0 as i64,
                oy: yr.0 as i64,
                has_offset: true,
                w: xr.1 as i64,
                h: yr.1 as i64,
            }
        },
        Constraint::MaxAspect(aspect) => {
            let xfy = (sy as int) * aspect.num / (aspect.den as int);
            let yfx = (sx as int) * aspect.den / (aspect.num as int);
            if xfy >= sx as int {
                OwnLayout {
                    ox: 0i64,
                    oy: 0i64,
                    has_offset: false,
                    w: sx,
                    h: clip(yfx) as i64,
                }
            } else {
                OwnLayout {
                    ox: 0i64,
                    oy: 0i64,
                    has_offset: false,
                    w: clip(xfy) as i64,
                    h: sy,
                }
            }
        },
    }
}

/// Write a node's own results: translation (a spread child adds its
/// parent-assigned offset; a `MaxAspect` node that is no spread child keeps
/// its prior position), the derived z, and the size.
pub open spec fn write_own(t: TreeV, id: int, ol: OwnLayout, z: i64) -> TreeV {
    let spread_child = t.conf[id].child_constraint is Some;
    let ntx = if spread_child {
        clip(ol.ox as int + t.sox[id] as int) as i64
    } else if ol.has_offset {
        ol.ox
    } else {
        t.tx[id]
    };
    let nty = if spread_child {
        clip(ol.oy as int + t.soy[id] as int) as i64
    } else if ol.has_offset {
        ol.oy
    } else {
        t.ty[id]
    };
    TreeV {
        tx: t.tx.update(id, ntx),
        ty: t.ty.update(id, nty),
        tz: t.tz.update(id, z),
        sw: t.sw.update(id, ol.w),
        sh: t.sh.update(id, ol.h),
        ..t
    }
}

/// Do all these children carry their per-child spread data?
pub open spec fn all_constrained(t: TreeV, kids: Seq<usize>) -> bool {
    forall|j: int| 0 <= j < kids.len()
        ==> t.conf[#[trigger] kids[j] as int].child_constraint is Some
}

/// The first child lacking its per-child spread data (meaningful only when
/// one exists).
pub open spec fn first_missing(t: TreeV, kids: Seq<usize>, i: int) -> usize
    decreases kids.len() - i,
{
    if i >= kids.len() {
        0
    } else if t.conf[kids[i] as int].child_constraint is None {
        kids[i]
    } else {
        first_missing(t, kids, i + 1)
    }
}

/// The spread data of these children, in order.
pub open spec fn cons_of(t: TreeV, kids: Seq<usize>) -> Seq<ChildConstraint> {
    Seq::new(kids.len(), |j: int| t.conf[kids[j] as int].child_constraint->Some_0)
}

/// The spread axis length of a resolved container.
pub open spec fn axis_len_of(dir: Direction, w: i64, h: i64) -> i64 {
    match dir {
        Direction::Left | Direction::Right => w,
        Direction::Up | Direction::Down => h,
    }
}

/// A spread child's allotted rectangle: its axis length, the container's
/// full cross length.
pub open spec fn csize_of(dir: Direction, len: i64, w: i64, h: i64) -> (i64, i64) {
    match dir {
        Direction::Up | Direction::Down => (w, len),
        Direction::Left | Direction::Right => (len, h),
    }
}

/// A spread child's position along the container, in the centered
/// convention: `Up`/`Right` walk the positive axis from the container's low
/// edge, `Down`/`Left` the negative from its high edge.
pub open spec fn cpos_of(dir: Direction, len: i64, off: i64, w: i64, h: i64) -> (i64, i64) {
    match dir {
        Direction::Up => (0i64, clip(off as int + len as int / 2 - h as int / 2) as i64),
        Direction::Down => (0i64, clip(h as int / 2 - off as int - len as int / 2) as i64),
        Direction::Left => (clip(w as int / 2 - off as int - len as int / 2) as i64, 0i64),
        Direction::Right => (clip(off as int + len as int / 2 - w as int / 2) as i64, 0i64),
    }
}

/// The per-child sizes a spread pass stores in the container's cache.
pub open spec fn sizes_of(lens: Seq<int>, dir: Direction, w: i64, h: i64) -> Seq<(i64, i64)> {
    Seq::new(lens.len(), |j: int| csize_of(dir, lens[j] as i64, w, h))
}

/// Did any of these children change since the last pass?
pub open spec fn any_child_changed(t: TreeV, kids: Seq<usize>, i: int) -> bool
    decreases kids.len() - i,
{
    if i >= kids.len() {
        false
    } else {
        t.changed[kids[i] as int] || any_child_changed(t, kids, i + 1)
    }
}

/// The solver's functional model. Given the store, a node, its space, its
/// z, whether to respect change flags, and the remaining depth budget, it
/// yields the store after the pass and the error that aborted it, if any.
pub open spec fn solve_m(t: TreeV, id: usize, sx: i64, sy: i64, z: i64, respect: bool,
    fuel: nat) -> (TreeV, Option<SolveError>)
    decreases fuel, 0nat, 0int,
{
    if fuel == 0 {
        (t, Some(SolveError::ResourceExhaustion { node: id }))
    } else {
        let fuel1 = (fuel - 1) as nat;
        let kids = t.kids[id as int];
        let cz = (z + UI_Z_STEP) as i64;
        if respect && !t.changed[id as int] {
            if kids.len() == 0 {
                (t, None)
            } else if t.conf[id as int].children_spread is Some {
                if t.kids_changed[id as int] || any_child_changed(t, kids, 0) {
                    full_m(t, id, sx, sy, z, false, fuel1)
                } else {
                    match t.cache[id as int] {
                        None => (t, Some(SolveError::Configuration { node: id })),
                        Some(c) => if c.len() == kids.len() {
                            replay_kids_m(t, kids, c, 0, cz, fuel1)
                        } else {
                            (t, Some(SolveError::Configuration { node: id }))
                        },
                    }
                }
            } else {
                kids_m(t, kids, 0, t.sw[id as int], t.sh[id as int], cz, true, false, fuel1)
            }
        } else {
            full_m(t, id, sx, sy, z, respect, fuel1)
        }
    }
}

/// The full (non-skipping) resolve of one node and its children.
pub open spec fn full_m(t: TreeV, id: usize, sx: i64, sy: i64, z: i64, resp: bool, fuel: nat)
    -> (TreeV, Option<SolveError>)
    decreases fuel, 2nat, 0int,
{
    let node = t.conf[id as int];
    let kids = t.kids[id as int];
    let ol = own_layout(node, sx, sy);
    let t1 = write_own(t, id as int, ol, z);
    let cz = (z + UI_Z_STEP) as i64;
    if kids.len() == 0 {
        (t1, None)
    } else {
        match node.children_spread {
            Some(sp) => {
                if !all_constrained(t1, kids) {
                    (t1, Some(SolveError::Configuration { node: first_missing(t1, kids, 0) }))
                } else {
                    let cs = cons_of(t1, kids);
                    let axis = axis_len_of(sp.direction, ol.w, ol.h);
                    match distribute_spec(cs, axis as int, sp.margin as int) {
                        Err(_) => (t1, Some(SolveError::Configuration { node: id })),
                        Ok(lens) => {
                            let (t2, e) = spread_kids_m(t1, kids, lens, sp.margin, ol.w, ol.h,
                                sp.direction, 0, 0i64, cz, resp, fuel);
                            match e {
                                Some(er) => (t2, Some(er)),
                                None => (TreeV {
                                    cache: t2.cache.update(id as int,
                                        Some(sizes_of(lens, sp.direction, ol.w, ol.h))),
                                    ..t2
                                }, None),
                            }
                        },
                    }
                }
            },
            None => kids_m(t1, kids, 0, ol.w, ol.h, cz, false, true, fuel),
        }
    }
}

/// The spread pass over the children: position each child along the axis,
/// then solve it inside its allotted rectangle.
pub open spec fn spread_kids_m(t: TreeV, kids: Seq<usize>, lens: Seq<int>, margin: i64,
    w: i64, h: i64, dir: Direction, i: int, off: i64, cz: i64, resp: bool, fuel: nat)
    -> (TreeV, Option<SolveError>)
    decreases fuel, 1nat, kids.len() - i,
{
    if i >= kids.len() {
        (t, None)
    } else {
        let c = kids[i];
        let len = lens[i] as i64;
        let size = csize_of(dir, len, w, h);
        let pos = cpos_of(dir, len, off, w, h);
        let t1 = TreeV {
            sox: t.sox.update(c as int, pos.0),
            soy: t.soy.update(c as int, pos.1),
            ..t
        };
        let off2 = clip(off as int + len as int + margin as int) as i64;
        let (t2, e) = solve_m(t1, c, size.0, size.1, cz, resp, fuel);
        match e {
            Some(er) => (t2, Some(er)),
            None => spread_kids_m(t2, kids, lens, margin, w, h, dir, i + 1, off2, cz, resp,
                fuel),
        }
    }
}

/// The plain child walk: each child gets the given space; when `check` is
/// set (the full path), a child carrying spread data under a non-spread
/// parent is a configuration error.
pub open spec fn kids_m(t: TreeV, kids: Seq<usize>, i: int, w: i64, h: i64, cz: i64,
    resp: bool, check: bool, fuel: nat) -> (TreeV, Option<SolveError>)
    decreases fuel, 1nat, kids.len() - i,
{
    if i >= kids.len() {
        (t, None)
    } else {
        let c = kids[i];
        if check && t.conf[c as int].child_constraint is Some {
            (t, Some(SolveError::Configuration { node: c }))
        } else {
            let (t2, e) = solve_m(t, c, w, h, cz, resp, fuel);
            match e {
                Some(er) => (t2, Some(er)),
                None => kids_m(t2, kids, i + 1, w, h, cz, resp, check, fuel),
            }
        }
    }
}

/// The first child found without its spread data is the one `first_missing`
/// names.
proof fn lemma_first_missing(t: TreeV, kids: Seq<usize>, i: int, k: int)
    requires
        0 <= i <= k < kids.len(),
        forall|q: int| i <= q < k ==> t.conf[#[trigger] kids[q] as int].child_constraint
            is Some,
        t.conf[kids[k] as int].child_constraint is None,
    ensures
        first_missing(t, kids, i) == kids[k],
    decreases k - i,
{
    if i < k {
        lemma_first_missing(t, kids, i + 1, k);
    }
}

/// The skip path's replay: each child gets the cached size of the last
/// spread pass, with flags still respected below.
pub open spec fn replay_kids_m(t: TreeV, kids: Seq<usize>, c: Seq<(i64, i64)>, i: int,
    cz: i64, fuel: nat) -> (TreeV, Option<SolveError>)
    decreases fuel, 1nat, kids.len() - i,
{
    if i >= kids.len() {
        (t, None)
    } else {
        let (t2, e) = solve_m(t, kids[i], c[i].0, c[i].1, cz, true, fuel);
        match e {
            Some(er) => (t2, Some(er)),
            None => replay_kids_m(t2, kids, c, i + 1, cz, fuel),
        }
    }
}


/// Copy one node's cached size list out of the store.
fn cache_row(t: &Tree, id: usize) -> (r: Option<Vec<(i64, i64)>>)
    requires
        t@.wf(),
        (id as int) < t@.len(),
    ensures
        match r {
            Some(v) => t@.cache[id as int] == Some(v@),
            None => t@.cache[id as int] is None,
        },
{
    match &t.cache[id] {
        None => None,
        Some(v) => {
            let mut out: Vec<(i64, i64)> = Vec::new();
            let mut k: usize = 0;
            while k < v.len()
                invariant
                    k <= v@.len(),
                    out@.len() == k,
                    forall|q: int| 0 <= q < k ==> out@[q] == v@[q],
                decreases v@.len() - k,
            {
                let p: (i64, i64) = v[k];
                out.push(p);
                k = k + 1;
            }
            proof {
                assert(out@ =~= v@);
            }
            Some(out)
        },
    }
}

/// Resolve a node's own offset and size against the handed space:
/// the executable form of [`own_layout`].
fn compute_own(node: ANode, sx: i64, sy: i64) -> (r: (i64, i64, bool, i64, i64))
    requires
        node.wf(),
        -COORD_LIMIT <= sx <= COORD_LIMIT,
        -COORD_LIMIT <= sy <= COORD_LIMIT,
    ensures
        r.0 == own_layout(node, sx, sy).ox,
        r.1 == own_layout(node, sx, sy).oy,
        r.2 == own_layout(node, sx, sy).has_offset,
        r.3 == own_layout(node, sx, sy).w,
        r.4 == own_layout(node, sx, sy).h,
{
    let a = node.anchors;
    match node.constraint {
        Constraint::Independent { x, y } => {
            let xr = x.solve((a.left, a.right), sx);
            let yr = y.solve((a.bottom, a.top), sy);
            (xr.offset, yr.offset, true, xr.size, yr.size)
        },
        Constraint::SetXWithY { y, aspect } => {
            let yr = y.solve((a.bottom, a.top), sy);
            proof {
                lemma_mul_bounds(yr.size as int, aspect.num as int, COORD_LIMIT as int,
                    ASPECT_LIMIT as int);
                lemma_div_within(yr.size as int * aspect.num as int, aspect.den as int);
            }
            let xs: i64 = clip64(div_floor(yr.size * aspect.num, aspect.den));
            let xr = AxisConstraint::Centered(xs).solve((a.left, a.right), sx);
            (xr.offset, yr.offset, true, xr.size, yr.size)
        },
        Constraint::SetYWithX { x, aspect } => {
            let xr = x.solve((a.left, a.right), sx);
            proof {
                lemma_mul_bounds(xr.size as int, aspect.den as int, COORD_LIMIT as int,
                    ASPECT_LIMIT as int);
                lemma_div_within(xr.size as int * aspect.den as int, aspect.num as int);
            }
            let ys: i64 = clip64(div_floor(xr.size * aspect.den, aspect.num));
            let yr = AxisConstraint::Centered(ys).solve((a.bottom, a.top), sy);
            (xr.offset, yr.offset, true, xr.size, yr.size)
        },
        Constraint::MaxAspect(aspect) => {
            proof {
                lemma_mul_bounds(sy as int, aspect.num as int, COORD_LIMIT as int,
                    ASPECT_LIMIT as int);
                lemma_mul_bounds(sx as int, aspect.den as int, COORD_LIMIT as int,
                    ASPECT_LIMIT as int);
                lemma_div_within(sy as int * aspect.num as int, aspect.den as int);
                lemma_div_within(sx as int * aspect.den as int, aspect.num as int);
            }
            let xfy: i64 = div_floor(sy * aspect.num, aspect.den);
            let yfx: i64 = div_floor(sx * aspect.den, aspect.num);
            if xfy >= sx {
                (0i64, 0i64, false, sx, clip64(yfx))
            } else {
                (0i64, 0i64, false, clip64(xfy), sy)
            }
        },
    }
}

/// The full (non-skipping) resolve of one node: the executable form of
/// [`full_m`].
#[verifier::rlimit(100)]
#[verifier::spinoff_prover]
fn full_solve(t: &mut Tree, id: usize, sx: i64, sy: i64, z: i64, resp: bool, fuel1: usize)
    -> (r: Result<(), SolveError>)
    requires
        old(t)@.wf(),
        (id as int) < old(t)@.len(),
        -COORD_LIMIT <= sx <= COORD_LIMIT,
        -COORD_LIMIT <= sy <= COORD_LIMIT,
        fuel1 <= NODE_LIMIT,
        fuel1 as int <= z as int + Z_LIMIT as int - 1,
        z <= Z_LIMIT,
    ensures
        final(t)@ == full_m(old(t)@, id, sx, sy, z, resp, fuel1 as nat).0,
        r == res_of(full_m(old(t)@, id, sx, sy, z, resp, fuel1 as nat).1),
        final(t)@.wf(),
        config_unchanged(old(t)@, final(t)@),
    decreases fuel1, 2int,
{
    let ghost t0 = t@;
    let ghost model = full_m(t0, id, sx, sy, z, resp, fuel1 as nat);
    let cz: i64 = z + UI_Z_STEP;
    let nk: usize = t.kids[id].len();
    let node: ANode = t.conf[id];
    let ghost kids0 = t0.kids[id as int];

    let (ox, oy, has, w, h): (i64, i64, bool, i64, i64) = compute_own(node, sx, sy);
    let ghost ol = own_layout(node, sx, sy);

    let spread_child: bool = node.child_constraint.is_some();
    let ntx: i64 = if spread_child {
        clip64(ox + t.sox[id])
    } else if has {
        ox
    } else {
        t.tx[id]
    };
    let nty: i64 = if spread_child {
        clip64(oy + t.soy[id])
    } else if has {
        oy
    } else {
        t.ty[id]
    };
    t.tx.set(id, ntx);
    t.ty.set(id, nty);
    t.tz.set(id, z);
    t.sw.set(id, w);
    t.sh.set(id, h);
    let ghost t1v = write_own(t0, id as int, ol, z);
    proof {
        assert(t@ =~= t1v);
        assert(t@.wf());
    }

    if nk == 0 {
        proof {
            assert(model == (t1v, None::<SolveError>));
        }
        return Ok(());
    }

    match node.children_spread {
        Some(sp) => {
            let mut cvec: Vec<ChildConstraint> = Vec::new();
            let mut g: usize = 0;
            while g < nk
                invariant
                    t0 == old(t)@,
                    t@ == t1v,
                    t1v.wf(),
                    t0.wf(),
                    t1v.conf == t0.conf,
                    t1v.kids == t0.kids,
                    (id as int) < t0.len(),
                    t0.len() == t1v.len(),
                    1 <= nk,
                    g <= nk,
                    nk == kids0.len(),
                    kids0 == t0.kids[id as int],
                    node == t0.conf[id as int],
                    node.children_spread == Some(sp),
                    ol == own_layout(node, sx, sy),
                    t1v == write_own(t0, id as int, ol, z),
                    model == full_m(t0, id, sx, sy, z, resp, fuel1 as nat),
                    cvec@.len() == g,
                    forall|q: int| 0 <= q < g
                        ==> t1v.conf[#[trigger] kids0[q] as int].child_constraint is Some,
                    forall|q: int| 0 <= q < g
                        ==> cvec@[q] == t1v.conf[#[trigger] kids0[q] as int]
                            .child_constraint->Some_0,
                decreases nk - g,
            {
                let kid: usize = t.kids[id][g];
                match t.conf[kid].child_constraint {
                    None => {
                        proof {
                            assert(kid == kids0[g as int]);
                            lemma_first_missing(t1v, kids0, 0, g as int);
                            assert(t1v.conf[kids0[g as int] as int].child_constraint
                                is None);
                            assert(!all_constrained(t1v, kids0));
                            assert(model == (t1v, Some(SolveError::Configuration {
                                node: kid,
                            })));
                        }
                        return Err(SolveError::Configuration { node: kid });
                    },
                    Some(cc) => {
                        cvec.push(cc);
                    },
                }
                g = g + 1;
            }
            proof {
                assert(all_constrained(t1v, kids0));
                assert(cvec@ =~= cons_of(t1v, kids0));
                assert(cons_wf(cvec@));
            }
            let axis: i64 = match sp.direction {
                Direction::Left | Direction::Right => w,
                Direction::Up | Direction::Down => h,
            };
            let lens: Vec<i64> = match distribute(axis, sp.margin, &cvec) {
                Err(_) => {
                    proof {
                        assert(model == (t1v, Some(SolveError::Configuration {
                            node: id,
                        })));
                    }
                    return Err(SolveError::Configuration { node: id });
                },
                Ok(v) => v,
            };
            let ghost lensv = ints(lens@);
            proof {
                crate::spread::lemma_spread_clamp_correct(cvec@, axis as int,
                    sp.margin as int);
                assert(forall|q: int| 0 <= q < nk
                    ==> -COORD_LIMIT <= #[trigger] lensv[q] <= COORD_LIMIT);
            }
            let mut cache_vec: Vec<(i64, i64)> = Vec::new();
            let mut off: i64 = 0;
            let mut i: usize = 0;
            while i < nk
                invariant
                    t0 == old(t)@,
                    t@.wf(),
                    t0.wf(),
                    t1v.wf(),
                    config_unchanged(t1v, t@),
                    t1v.conf == t0.conf,
                    t1v.kids == t0.kids,
                    config_unchanged(t0, t@),
                    1 <= nk,
                    i <= nk,
                    nk == kids0.len(),
                    kids0 == t0.kids[id as int],
                    (id as int) < t0.len(),
                    t0.len() == t@.len(),
                    node == t0.conf[id as int],
                    node.children_spread == Some(sp),
                    ol == own_layout(node, sx, sy),
                    t1v == write_own(t0, id as int, ol, z),
                    w == ol.w,
                    h == ol.h,
                    model == full_m(t0, id, sx, sy, z, resp, fuel1 as nat),
                    all_constrained(t1v, kids0),
                    axis == axis_len_of(sp.direction, ol.w, ol.h),
                    distribute_spec(cons_of(t1v, kids0), axis as int, sp.margin as int)
                        == Ok::<Seq<int>, ()>(lensv),
                    lens@.len() == nk,
                    lensv == ints(lens@),
                    forall|q: int| 0 <= q < nk
                        ==> -COORD_LIMIT <= #[trigger] lensv[q] <= COORD_LIMIT,
                    -COORD_LIMIT <= off <= COORD_LIMIT,
                    -COORD_LIMIT <= w <= COORD_LIMIT,
                    -COORD_LIMIT <= h <= COORD_LIMIT,
                    -COORD_LIMIT <= sp.margin <= COORD_LIMIT,
                    cache_vec@.len() == i,
                    forall|q: int| 0 <= q < i
                        ==> cache_vec@[q] == csize_of(sp.direction, lensv[q] as i64, w, h),
                    fuel1 <= NODE_LIMIT,
                    fuel1 as int <= z as int + Z_LIMIT as int - 1,
                    z <= Z_LIMIT,
                    cz == z + UI_Z_STEP,
                    spread_kids_m(t1v, kids0, lensv, sp.margin, w, h, sp.direction, 0, 0i64,
                        cz, resp, fuel1 as nat)
                        == spread_kids_m(t@, kids0, lensv, sp.margin, w, h, sp.direction,
                            i as int, off, cz, resp, fuel1 as nat),
                decreases nk - i,
            {
                let kid: usize = t.kids[id][i];
                let len: i64 = lens[i];
                let (szw, szh): (i64, i64) = match sp.direction {
                    Direction::Up | Direction::Down => (w, len),
                    Direction::Left | Direction::Right => (len, h),
                };
                let halflen: i64 = div_floor(len, 2);
                let halfw: i64 = div_floor(w, 2);
                let halfh: i64 = div_floor(h, 2);
                proof {
                    lemma_div_within(len as int, 2);
                    lemma_div_within(w as int, 2);
                    lemma_div_within(h as int, 2);
                }
                let (px, py): (i64, i64) = match sp.direction {
                    Direction::Up => (0i64, clip64(off + halflen - halfh)),
                    Direction::Down => (0i64, clip64(halfh - off - halflen)),
                    Direction::Left => (clip64(halfw - off - halflen), 0i64),
                    Direction::Right => (clip64(off + halflen - halfw), 0i64),
                };
                proof {
                    assert(kid == kids0[i as int]);
                    assert(len == lensv[i as int] as i64);
                }
                let ghost t_bef = t@;
                t.sox.set(kid, px);
                t.soy.set(kid, py);
                proof {
                    assert(t@ =~= (TreeV {
                        sox: t_bef.sox.update(kid as int, px),
                        soy: t_bef.soy.update(kid as int, py),
                        ..t_bef
                    }));
                    assert(t@.wf());
                }
                cache_vec.push((szw, szh));
                let ghost t_set = t@;
                let rr = solve(t, kid, szw, szh, cz, resp, fuel1);
                proof {
                    assert((szw, szh) == csize_of(sp.direction, lensv[i as int] as i64, w,
                        h));
                    assert((px, py) == cpos_of(sp.direction, lensv[i as int] as i64, off,
                        w, h));
                    assert(spread_kids_m(t_bef, kids0, lensv, sp.margin, w, h,
                        sp.direction, i as int, off, cz, resp, fuel1 as nat)
                        == match solve_m(t_set, kid, szw, szh, cz, resp, fuel1 as nat).1 {
                            Some(er) => (t@, Some(er)),
                            None => spread_kids_m(t@, kids0, lensv, sp.margin, w, h,
                                sp.direction, i as int + 1,
                                clip(off as int + len as int + sp.margin as int) as i64,
                                cz, resp, fuel1 as nat),
                        });
                }
                match rr {
                    Err(e) => {
                        return Err(e);
                    },
                    Ok(_) => {},
                }
                off = clip64(off + len + sp.margin);
                i = i + 1;
            }
            let ghost t_end = t@;
            t.cache.set(id, Some(cache_vec));
            proof {
                assert(cache_vec@ =~= sizes_of(lensv, sp.direction, w, h));
                assert(t@ =~= (TreeV {
                    cache: t_end.cache.update(id as int,
                        Some(sizes_of(lensv, sp.direction, w, h))),
                    ..t_end
                }));
                assert(t@.wf());
                assert(model == (t@, None::<SolveError>));
            }
            return Ok(());
        },
        None => {
            let mut i: usize = 0;
            while i < nk
                invariant
                    t0 == old(t)@,
                    t@.wf(),
                    t0.wf(),
                    t1v.wf(),
                    config_unchanged(t1v, t@),
                    t1v.conf == t0.conf,
                    t1v.kids == t0.kids,
                    config_unchanged(t0, t@),
                    1 <= nk,
                    i <= nk,
                    nk == kids0.len(),
                    kids0 == t0.kids[id as int],
                    (id as int) < t0.len(),
                    t0.len() == t@.len(),
                    node == t0.conf[id as int],
                    node.children_spread is None,
                    ol == own_layout(node, sx, sy),
                    t1v == write_own(t0, id as int, ol, z),
                    w == ol.w,
                    h == ol.h,
                    model == full_m(t0, id, sx, sy, z, resp, fuel1 as nat),
                    -COORD_LIMIT <= w <= COORD_LIMIT,
                    -COORD_LIMIT <= h <= COORD_LIMIT,
                    fuel1 <= NODE_LIMIT,
                    fuel1 as int <= z as int + Z_LIMIT as int - 1,
                    z <= Z_LIMIT,
                    cz == z + UI_Z_STEP,
                    kids_m(t1v, kids0, 0, w, h, cz, false, true, fuel1 as nat)
                        == kids_m(t@, kids0, i as int, w, h, cz, false, true, fuel1 as nat),
                decreases nk - i,
            {
                let kid: usize = t.kids[id][i];
                proof {
                    assert(kid == kids0[i as int]);
                }
                if t.conf[kid].child_constraint.is_some() {
                    proof {
                        assert(kids_m(t@, kids0, i as int, w, h, cz, false, true,
                            fuel1 as nat)
                            == (t@, Some(SolveError::Configuration { node: kid })));
                        assert(model == (t@, Some(SolveError::Configuration {
                            node: kid,
                        })));
                    }
                    return Err(SolveError::Configuration { node: kid });
                }
                let ghost t_bef = t@;
                let rr = solve(t, kid, w, h, cz, false, fuel1);
                proof {
                    assert(kids_m(t_bef, kids0, i as int, w, h, cz, false, true,
                        fuel1 as nat)
                        == match solve_m(t_bef, kid, w, h, cz, false, fuel1 as nat).1 {
                            Some(er) => (t@, Some(er)),
                            None => kids_m(t@, kids0, i as int + 1, w, h, cz, false, true,
                                fuel1 as nat),
                        });
                }
                match rr {
                    Err(e) => {
                        return Err(e);
                    },
                    Ok(_) => {},
                }
                i = i + 1;
            }
            proof {
                assert(model == (t@, None::<SolveError>));
            }
            return Ok(());
        },
    }
}

/// The tree walker. Resolves the node's own transform and size within the
/// handed space and dispatches to its children; with `respect` set, the
/// change-tracking gate may replay cached results instead. Its whole effect
/// on the store, and the error it reports, equal the functional model's.
#[verifier::rlimit(100)]
#[verifier::spinoff_prover]
pub fn solve(t: &mut Tree, id: usize, sx: i64, sy: i64, z: i64, respect: bool, fuel: usize)
    -> (r: Result<(), SolveError>)
    requires
        old(t)@.wf(),
        (id as int) < old(t)@.len(),
        -COORD_LIMIT <= sx <= COORD_LIMIT,
        -COORD_LIMIT <= sy <= COORD_LIMIT,
        fuel <= NODE_LIMIT + 1,
        fuel as int <= z as int + Z_LIMIT as int,
        z <= Z_LIMIT,
    ensures
        final(t)@ == solve_m(old(t)@, id, sx, sy, z, respect, fuel as nat).0,
        r == res_of(solve_m(old(t)@, id, sx, sy, z, respect, fuel as nat).1),
        final(t)@.wf(),
        config_unchanged(old(t)@, final(t)@),
    decreases fuel, 0int,
{
    let ghost t0 = t@;
    let ghost model = solve_m(t0, id, sx, sy, z, respect, fuel as nat);
    if fuel == 0 {
        return Err(SolveError::ResourceExhaustion { node: id });
    }
    let fuel1: usize = fuel - 1;
    let cz: i64 = z + UI_Z_STEP;
    let nk: usize = t.kids[id].len();
    let node: ANode = t.conf[id];
    let ghost kids0 = t0.kids[id as int];

    if respect && !t.changed[id] {
        if nk == 0 {
            return Ok(());
        }
        if node.children_spread.is_some() {
        let kc: bool = t.kids_changed[id];
        let mut any_ch: bool = false;
        let mut j: usize = 0;
        while j < nk && !any_ch
            invariant
                t0 == old(t)@,
                t@ == t0,
                t0.wf(),
                (id as int) < t0.len(),
                j <= nk,
                1 <= nk,
                nk == kids0.len(),
                kids0 == t0.kids[id as int],
                node == t0.conf[id as int],
                kc == t0.kids_changed[id as int],
                respect,
                !t0.changed[id as int],
                1 <= fuel,
                fuel1 == fuel - 1,
                cz == z + UI_Z_STEP,
                model == solve_m(t0, id, sx, sy, z, respect, fuel as nat),
                any_child_changed(t0, kids0, 0)
                    == (any_ch || any_child_changed(t0, kids0, j as int)),
            decreases nk - j,
        {
            let kid: usize = t.kids[id][j];
            if t.changed[kid] {
                any_ch = true;
            }
            j = j + 1;
        }
        if kc || any_ch {
            let rr = full_solve(t, id, sx, sy, z, false, fuel1);
            proof {
                assert(model == full_m(t0, id, sx, sy, z, false, fuel1 as nat));
            }
            return rr;
        }
        match cache_row(t, id) {
                None => {
                    return Err(SolveError::Configuration { node: id });
                },
                Some(c) => {
                    if c.len() != nk {
                        return Err(SolveError::Configuration { node: id });
                    }
                    let ghost cv = c@;
                    proof {
                        assert(model == replay_kids_m(t0, kids0, cv, 0, cz, fuel1 as nat));
                    }
                    let mut i: usize = 0;
                    while i < nk
                        invariant
                            t0 == old(t)@,
                            t@.wf(),
                            t0.wf(),
                            config_unchanged(t0, t@),
                            i <= nk,
                            nk == kids0.len(),
                            kids0 == t0.kids[id as int],
                            (id as int) < t0.len(),
                            t0.len() == t@.len(),
                            cv.len() == nk,
                            forall|q: int| 0 <= q < nk
                                ==> -COORD_LIMIT <= (#[trigger] cv[q]).0 <= COORD_LIMIT
                                    && -COORD_LIMIT <= cv[q].1 <= COORD_LIMIT,
                            c@ == cv,
                            fuel1 == fuel - 1,
                            fuel <= NODE_LIMIT + 1,
                            fuel as int <= z as int + Z_LIMIT as int,
                            z <= Z_LIMIT,
                            cz == z + UI_Z_STEP,
                            model == solve_m(t0, id, sx, sy, z, respect, fuel as nat),
                            model == replay_kids_m(t@, kids0, cv, i as int, cz,
                                fuel1 as nat),
                        decreases nk - i,
                    {
                        let kid: usize = t.kids[id][i];
                        let cw: i64 = c[i].0;
                        let chh: i64 = c[i].1;
                        proof {
                            assert(kid == kids0[i as int]);
                        }
                        let ghost t_bef = t@;
                        let rr = solve(t, kid, cw, chh, cz, true, fuel1);
                        proof {
                            assert(replay_kids_m(t_bef, kids0, cv, i as int, cz,
                                fuel1 as nat)
                                == match solve_m(t_bef, kid, cw, chh, cz, true,
                                    fuel1 as nat).1 {
                                    Some(er) => (t@, Some(er)),
                                    None => replay_kids_m(t@, kids0, cv, i as int + 1, cz,
                                        fuel1 as nat),
                                });
                        }
                        match rr {
                            Err(e) => {
                                return Err(e);
                            },
                            Ok(_) => {},
                        }
                        i = i + 1;
                    }
                    return Ok(());
                },
            }
        } else {
            let w: i64 = t.sw[id];
            let h: i64 = t.sh[id];
            proof {
                assert(model == kids_m(t0, kids0, 0, w, h, cz, true, false, fuel1 as nat));
            }
            let mut i: usize = 0;
            while i < nk
                invariant
                    t0 == old(t)@,
                    t@.wf(),
                    t0.wf(),
                    config_unchanged(t0, t@),
                    i <= nk,
                    nk == kids0.len(),
                    kids0 == t0.kids[id as int],
                    (id as int) < t0.len(),
                    t0.len() == t@.len(),
                    -COORD_LIMIT <= w <= COORD_LIMIT,
                    -COORD_LIMIT <= h <= COORD_LIMIT,
                    fuel1 == fuel - 1,
                    fuel <= NODE_LIMIT + 1,
                    fuel as int <= z as int + Z_LIMIT as int,
                    z <= Z_LIMIT,
                    cz == z + UI_Z_STEP,
                    model == solve_m(t0, id, sx, sy, z, respect, fuel as nat),
                    model == kids_m(t@, kids0, i as int, w, h, cz, true, false,
                        fuel1 as nat),
                decreases nk - i,
            {
                let kid: usize = t.kids[id][i];
                proof {
                    assert(kid == kids0[i as int]);
                }
                let ghost t_bef = t@;
                let rr = solve(t, kid, w, h, cz, true, fuel1);
                proof {
                    assert(kids_m(t_bef, kids0, i as int, w, h, cz, true, false,
                        fuel1 as nat)
                        == match solve_m(t_bef, kid, w, h, cz, true, fuel1 as nat).1 {
                            Some(er) => (t@, Some(er)),
                            None => kids_m(t@, kids0, i as int + 1, w, h, cz, true, false,
                                fuel1 as nat),
                        });
                }
                match rr {
                    Err(e) => {
                        return Err(e);
                    },
                    Ok(_) => {},
                }
                i = i + 1;
            }
            return Ok(());
        }
    }

    let rr = full_solve(t, id, sx, sy, z, respect, fuel1);
    proof {
        assert(model == full_m(t0, id, sx, sy, z, respect, fuel1 as nat));
    }
    rr
}

/// What a full resolve of the subtree under `root` does to the store.
pub open spec fn solve_subtree_spec(t: TreeV, root: usize, sx: i64, sy: i64)
    -> (TreeV, Option<SolveError>) {
    solve_m(t, root, sx, sy, ROOT_Z, false, (t.conf.len() + 1) as nat)
}

/// What an incremental (change-tracked) resolve does to the store.
pub open spec fn solve_subtree_incremental_spec(t: TreeV, root: usize, sx: i64, sy: i64)
    -> (TreeV, Option<SolveError>) {
    solve_m(t, root, sx, sy, ROOT_Z, true, (t.conf.len() + 1) as nat)
}

/// Full resolve of the subtree under `root` within the given space,
/// ignoring change flags. The depth budget of one pass is the node count,
/// so a cycle handed in as a tree surfaces as `ResourceExhaustion` instead
/// of recursing forever.
pub fn solve_subtree(t: &mut Tree, root: usize, space_x: i64, space_y: i64)
    -> (r: Result<(), SolveError>)
    requires
        old(t)@.wf(),
        (root as int) < old(t)@.len(),
        -COORD_LIMIT <= space_x <= COORD_LIMIT,
        -COORD_LIMIT <= space_y <= COORD_LIMIT,
    ensures
        final(t)@ == solve_subtree_spec(old(t)@, root, space_x, space_y).0,
        r == res_of(solve_subtree_spec(old(t)@, root, space_x, space_y).1),
        final(t)@.wf(),
        config_unchanged(old(t)@, final(t)@),
{
    let fuel: usize = t.conf.len() + 1;
    solve(t, root, space_x, space_y, ROOT_Z, false, fuel)
}

/// Incremental resolve of the subtree under `root`: subtrees whose flags
/// show no change since the last pass are replayed from the cache instead
/// of re-derived. An optimization only — see the accompanying equivalence
/// law.
pub fn solve_subtree_incremental(t: &mut Tree, root: usize, space_x: i64, space_y: i64)
    -> (r: Result<(), SolveError>)
    requires
        old(t)@.wf(),
        (root as int) < old(t)@.len(),
        -COORD_LIMIT <= space_x <= COORD_LIMIT,
        -COORD_LIMIT <= space_y <= COORD_LIMIT,
    ensures
        final(t)@ == solve_subtree_incremental_spec(old(t)@, root, space_x, space_y).0,
        r == res_of(solve_subtree_incremental_spec(old(t)@, root, space_x, space_y).1),
        final(t)@.wf(),
        config_unchanged(old(t)@, final(t)@),
{
    let fuel: usize = t.conf.len() + 1;
    solve(t, root, space_x, space_y, ROOT_Z, true, fuel)
}

impl Tree {
    /// An empty store.
    pub fn new() -> (r: Tree)
        ensures
            r@.wf(),
            r@.len() == 0,
    {
        let r = Tree {
            conf: Vec::new(),
            kids: Vec::new(),
            changed: Vec::new(),
            kids_changed: Vec::new(),
            tx: Vec::new(),
            ty: Vec::new(),
            tz: Vec::new(),
            sw: Vec::new(),
            sh: Vec::new(),
            sox: Vec::new(),
            soy: Vec::new(),
            cache: Vec::new(),
        };
        proof {
            assert(r@.kids =~= Seq::<Seq<usize>>::empty());
            assert(r@.cache =~= Seq::<Option<Seq<(i64, i64)>>>::empty());
        }
        r
    }

    /// Append a node with its configuration and child list; outputs start
    /// zeroed, flags set (the node has never been solved). Returns the new
    /// node's identifier.
    pub fn push_node(&mut self, node: ANode, children: Vec<usize>) -> (id: usize)
        requires
            old(self)@.wf(),
            old(self)@.len() < NODE_LIMIT,
            node.wf(),
            children@.len() <= NODE_LIMIT,
            forall|j: int| 0 <= j < children@.len()
                ==> (#[trigger] children@[j]) < old(self)@.len() + 1,
        ensures
            final(self)@.wf(),
            final(self)@.len() == old(self)@.len() + 1,
            id as int == old(self)@.len(),
            final(self)@.conf == old(self)@.conf.push(node),
            final(self)@.kids == old(self)@.kids.push(children@),
            final(self)@.changed == old(self)@.changed.push(true),
            final(self)@.kids_changed == old(self)@.kids_changed.push(true),
    {
        let id: usize = self.conf.len();
        self.conf.push(node);
        self.kids.push(children);
        self.changed.push(true);
        self.kids_changed.push(true);
        self.tx.push(0);
        self.ty.push(0);
        self.tz.push(0);
        self.sw.push(0);
        self.sh.push(0);
        self.sox.push(0);
        self.soy.push(0);
        self.cache.push(None);
        proof {
            assert(final(self)@.kids =~= old(self)@.kids.push(children@));
            assert(final(self)@.cache
                =~= old(self)@.cache.push(None::<Seq<(i64, i64)>>));
            assert(final(self)@.wf());
        }
        id
    }

    /// Are this node's children all in bounds?
    fn kids_in_bounds(&self, i: usize) -> (b: bool)
        requires
            (i as int) < self@.kids.len(),
            self@.len() == self.conf@.len(),
        ensures
            b == forall|j: int| 0 <= j < self@.kids[i as int].len()
                ==> (#[trigger] self@.kids[i as int][j]) < self@.len(),
    {
        let n: usize = self.conf.len();
        let m: usize = self.kids[i].len();
        let mut j: usize = 0;
        while j < m
            invariant
                (i as int) < self@.kids.len(),
                self@.len() == self.conf@.len(),
                n == self@.len(),
                m == self@.kids[i as int].len(),
                j <= m,
                forall|q: int| 0 <= q < j
                    ==> (#[trigger] self@.kids[i as int][q]) < self@.len(),
            decreases m - j,
        {
            if self.kids[i][j] >= n {
                return false;
            }
            j = j + 1;
        }
        true
    }

    /// Are this node's cached sizes, if any, all inside the coordinate
    /// range?
    fn cache_in_range(&self, i: usize) -> (b: bool)
        requires
            (i as int) < self@.cache.len(),
            self@.cache.len() == self.cache@.len(),
        ensures
            b == (self@.cache[i as int] is Some
                ==> forall|j: int| 0 <= j < self@.cache[i as int]->Some_0.len()
                    ==> -COORD_LIMIT <= (#[trigger] self@.cache[i as int]->Some_0[j]).0
                        <= COORD_LIMIT
                        && -COORD_LIMIT <= self@.cache[i as int]->Some_0[j].1
                            <= COORD_LIMIT),
    {
        match &self.cache[i] {
            None => true,
            Some(c) => {
                let m: usize = c.len();
                let mut j: usize = 0;
                while j < m
                    invariant
                        (i as int) < self@.cache.len(),
                        self@.cache.len() == self.cache@.len(),
                        self@.cache[i as int] == Some(c@),
                        m == c@.len(),
                        j <= m,
                        forall|q: int| 0 <= q < j
                            ==> -COORD_LIMIT <= (#[trigger] c@[q]).0 <= COORD_LIMIT
                                && -COORD_LIMIT <= c@[q].1 <= COORD_LIMIT,
                    decreases m - j,
                {
                    let (a, b2): (i64, i64) = c[j];
                    if a < -COORD_LIMIT || a > COORD_LIMIT || b2 < -COORD_LIMIT
                        || b2 > COORD_LIMIT {
                        proof {
                            assert(self@.cache[i as int]->Some_0 == c@);
                            assert(c@[j as int] == (a, b2));
                        }
                        return false;
                    }
                    j = j + 1;
                }
                true
            },
        }
    }

    /// Does the store meet the solver's structural precondition? The
    /// executable form of [`TreeV::wf`], for hosts to test before a pass.
    pub fn check_wf(&self) -> (b: bool)
        ensures
            b == self@.wf(),
    {
        proof {
            lemma_wf_rows(self@);
        }
        let n: usize = self.conf.len();
        if n > NODE_LIMIT || self.kids.len() != n || self.changed.len() != n
            || self.kids_changed.len() != n || self.tx.len() != n || self.ty.len() != n
            || self.tz.len() != n || self.sw.len() != n || self.sh.len() != n
            || self.sox.len() != n || self.soy.len() != n || self.cache.len() != n {
            return false;
        }
        let mut i: usize = 0;
        while i < n
            invariant
                n == self@.len(),
                cols_wf(self@),
                i <= n,
                forall|q: int| 0 <= q < i ==> #[trigger] row_wf(self@, q),
            decreases n - i,
        {
            let row = &self.conf[i];
            let ok: bool = row.is_wf() && self.kids[i].len() <= NODE_LIMIT
                && self.kids_in_bounds(i) && self.tx[i] >= -COORD_LIMIT
                && self.tx[i] <= COORD_LIMIT && self.ty[i] >= -COORD_LIMIT
                && self.ty[i] <= COORD_LIMIT && self.sw[i] >= -COORD_LIMIT
                && self.sw[i] <= COORD_LIMIT && self.sh[i] >= -COORD_LIMIT
                && self.sh[i] <= COORD_LIMIT && self.sox[i] >= -COORD_LIMIT
                && self.sox[i] <= COORD_LIMIT && self.soy[i] >= -COORD_LIMIT
                && self.soy[i] <= COORD_LIMIT && self.cache_in_range(i);
            if !ok {
                proof {
                    assert(!row_wf(self@, i as int));
                    lemma_wf_rows(self@);
                }
                return false;
            }
            proof {
                assert(row_wf(self@, i as int));
            }
            i = i + 1;
        }
        proof {
            lemma_wf_rows(self@);
        }
        true
    }
}

} // verus!
