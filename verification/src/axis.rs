//! The axis solver: a pure function mapping one axis-constraint variant, an
//! anchor-fraction pair and an available axis length to a concrete
//! (offset, size) pair.
//!
//! Coordinates are centered on the parent's midpoint (offset 0 is the parent
//! center). The closed forms are stated by the spec functions below; the
//! executable solver returns them exactly, clipped into the coordinate range.

use vstd::prelude::*;
use crate::num::{
    clip, ANCHOR_DEN, ANCHOR_LIMIT, COORD_LIMIT, clip64, div_floor, lemma_mul_bounds,
    lemma_div_bounded, lemma_div_within,
};
use crate::types::AxisConstraint;

verus! {

/// One axis resolved: offset of the node's center from the parent's center,
/// and the node's length along the axis.
#[derive(Clone, Copy, Debug, PartialEq, Eq, Structural)]
pub struct AxisSolve {
    pub offset: i64,
    pub size: i64,
}

/// The anchor-restricted sub-length `(hi - lo) * avail` of an available axis
/// length, with the anchor fractions in thousandths.
pub open spec fn anchor_window(lo: int, hi: int, avail: int) -> int {
    (hi - lo) * avail / (ANCHOR_DEN as int)
}

/// The near padding `p1` each constraint resolves to within its anchor
/// window.
pub open spec fn axis_p1_spec(c: AxisConstraint, window: int) -> int {
    match c {
        AxisConstraint::DoublePadding(p1, _) => p1 as int,
        AxisConstraint::PaddingAndSize(p1, _) => p1 as int,
        AxisConstraint::InversePaddingAndSize(p2, s) => window - p2 - s,
        AxisConstraint::Centered(s) => (window - s) / 2,
    }
}

/// The size each constraint resolves to within its anchor window.
pub open spec fn axis_size_spec(c: AxisConstraint, window: int) -> int {
    match c {
        AxisConstraint::DoublePadding(p1, p2) => window - p1 - p2,
        AxisConstraint::PaddingAndSize(_, s) => s as int,
        AxisConstraint::InversePaddingAndSize(_, s) => s as int,
        AxisConstraint::Centered(s) => s as int,
    }
}

/// The center offset `avail * (lo - 1/2) + p1 + size / 2`, written over
/// thousandth anchors.
pub open spec fn axis_offset_spec(lo: int, avail: int, p1: int, size: int) -> int {
    avail * (2 * lo - ANCHOR_DEN) / (2 * (ANCHOR_DEN as int)) + p1 + size / 2
}

/// What the axis solver returns: the closed forms above, clipped into the
/// coordinate range.
pub open spec fn axis_result(c: AxisConstraint, lo: int, hi: int, avail: int) -> (int, int) {
    let window = anchor_window(lo, hi, avail);
    let p1 = axis_p1_spec(c, window);
    let s = axis_size_spec(c, window);
    (clip(axis_offset_spec(lo, avail, p1, s)), clip(s))
}

impl AxisConstraint {
    /// Resolve this axis against an anchor pair and an available length.
    /// Total: every admitted input yields a result; a negative size is a
    /// computed value, not a failure.
    pub fn solve(self, anchors: (i64, i64), true_space: i64) -> (r: AxisSolve)
        requires
            self.wf(),
            -ANCHOR_LIMIT <= anchors.0 <= ANCHOR_LIMIT,
            -ANCHOR_LIMIT <= anchors.1 <= ANCHOR_LIMIT,
            -COORD_LIMIT <= true_space <= COORD_LIMIT,
        ensures
            r.offset as int == axis_result(self, anchors.0 as int, anchors.1 as int,
                true_space as int).0,
            r.size as int == axis_result(self, anchors.0 as int, anchors.1 as int,
                true_space as int).1,
            -COORD_LIMIT <= r.offset <= COORD_LIMIT,
            -COORD_LIMIT <= r.size <= COORD_LIMIT,
    {
        let lo = anchors.0;
        let hi = anchors.1;
        proof {
            lemma_mul_bounds((hi - lo) as int, true_space as int, 2 * (ANCHOR_LIMIT as int),
                COORD_LIMIT as int);
        }
        let span_avail: i64 = (hi - lo) * true_space;
        proof {
            lemma_div_bounded(span_avail as int, ANCHOR_DEN as int, 2_000_000_000_000_000);
        }
        let window: i64 = div_floor(span_avail, ANCHOR_DEN);
        let (p1, s): (i64, i64) = match self {
            AxisConstraint::DoublePadding(p1, p2) => (p1, window - p1 - p2),
            AxisConstraint::PaddingAndSize(p1, s) => (p1, s),
            AxisConstraint::InversePaddingAndSize(p2, s) => (window - p2 - s, s),
            AxisConstraint::Centered(s) => (div_floor(window - s, 2), s),
        };
        proof {
            lemma_div_within((window - self.centered_size()) as int, 2);
            lemma_mul_bounds(true_space as int, 2 * lo - ANCHOR_DEN,
                COORD_LIMIT as int, 2 * (ANCHOR_LIMIT as int) + ANCHOR_DEN,
            );
            lemma_div_bounded(true_space as int * (2 * lo - ANCHOR_DEN),
                2 * (ANCHOR_DEN as int), 2_000_000_000_000_000);
        }
        let base: i64 = div_floor(true_space * (2 * lo - ANCHOR_DEN), 2 * ANCHOR_DEN);
        let half: i64 = div_floor(s, 2);
        proof {
            lemma_div_within(s as int, 2);
        }
        let offset_raw: i64 = base + p1 + half;
        AxisSolve { offset: clip64(offset_raw), size: clip64(s) }
    }

    /// The explicit size of a `Centered` constraint, zero for the others
    /// (only a bounding aid).
    pub open spec fn centered_size(self) -> i64 {
        match self {
            AxisConstraint::Centered(s) => s,
            _ => 0i64,
        }
    }
}

/// Axis-solver closed form: wherever the closed-form offset and size lie
/// within the coordinate range, the solver returns them exactly, for every
/// constraint variant and anchor pair.
pub proof fn lemma_axis_exact(c: AxisConstraint, lo: int, hi: int, avail: int)
    requires
        ({
            let window = anchor_window(lo, hi, avail);
            let p1 = axis_p1_spec(c, window);
            let s = axis_size_spec(c, window);
            -COORD_LIMIT <= axis_offset_spec(lo, avail, p1, s) <= COORD_LIMIT
                && -COORD_LIMIT <= s <= COORD_LIMIT
        }),
    ensures
        ({
            let window = anchor_window(lo, hi, avail);
            let p1 = axis_p1_spec(c, window);
            let s = axis_size_spec(c, window);
            axis_result(c, lo, hi, avail) == (axis_offset_spec(lo, avail, p1, s), s)
        }),
{
}

/// Centered round-trip: a `Centered(s)` size leaves paddings on either side
/// of the anchor window that differ by at most one unit, and are equal
/// whenever the slack `window - s` is even.
pub proof fn lemma_centered_round_trip(s: i64, window: int)
    ensures
        ({
            let p1 = axis_p1_spec(AxisConstraint::Centered(s), window);
            let p2 = window - s - p1;
            p2 - p1 == (window - s) % 2 && 0 <= p2 - p1 <= 1
                && ((window - s) % 2 == 0 ==> p1 == p2)
        }),
{
    vstd::arithmetic::div_mod::lemma_fundamental_div_mod(window - s, 2);
    vstd::arithmetic::div_mod::lemma_mod_bound(window - s, 2);
}

} // verus!
