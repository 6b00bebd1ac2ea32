//! The layout-relevant configuration attached to one tree element: anchor
//! fractions, axis constraints, aspect coupling, and the spread settings of
//! container nodes and their children.
//!
//! Anchor fractions are held in thousandths ([`crate::num::ANCHOR_DEN`] units
//! stand for 1.0); aspect ratios are positive integer fractions; every length
//! is a whole layout unit.

use vstd::prelude::*;
use crate::num::{ANCHOR_LIMIT, ASPECT_LIMIT, COORD_LIMIT, WEIGHT_LIMIT};

verus! {

/// Four anchor fractions (left, right, bottom, top) in thousandths, defining
/// the sub-rectangle of the parent space a node is positioned within before
/// its own axis constraint is applied. Values outside `[0, ANCHOR_DEN]` are
/// permitted and meaningful.
#[derive(Clone, Copy, Debug, PartialEq, Eq, Structural)]
pub struct Anchors {
    pub left: i64,
    pub right: i64,
    pub bottom: i64,
    pub top: i64,
}

impl Anchors {
    pub open spec fn wf(self) -> bool {
        &&& -ANCHOR_LIMIT <= self.left <= ANCHOR_LIMIT
        &&& -ANCHOR_LIMIT <= self.right <= ANCHOR_LIMIT
        &&& -ANCHOR_LIMIT <= self.bottom <= ANCHOR_LIMIT
        &&& -ANCHOR_LIMIT <= self.top <= ANCHOR_LIMIT
    }

    /// Executable form of [`Anchors::wf`].
    pub fn is_wf(&self) -> (b: bool)
        ensures
            b == self.wf(),
    {
        -ANCHOR_LIMIT <= self.left && self.left <= ANCHOR_LIMIT
            && -ANCHOR_LIMIT <= self.right && self.right <= ANCHOR_LIMIT
            && -ANCHOR_LIMIT <= self.bottom && self.bottom <= ANCHOR_LIMIT
            && -ANCHOR_LIMIT <= self.top && self.top <= ANCHOR_LIMIT
    }

    pub fn new(left: i64, right: i64, bottom: i64, top: i64) -> (r: Anchors)
        ensures
            r == (Anchors { left, right, bottom, top }),
    {
        Anchors { left, right, bottom, top }
    }

    /// The anchor pair of the x axis.
    pub fn x(&self) -> (r: (i64, i64))
        ensures
            r == (self.left, self.right),
    {
        (self.left, self.right)
    }

    /// The anchor pair of the y axis.
    pub fn y(&self) -> (r: (i64, i64))
        ensures
            r == (self.bottom, self.top),
    {
        (self.bottom, self.top)
    }

    /// Preset: the `bottom_full` anchor arrangement, in thousandths.
    pub fn bottom_full() -> (r: Anchors)
        ensures
            r == (Anchors { left: 0i64, right: 1000i64, bottom: 0i64, top: 0i64 }),
    {
        Anchors { left: 0, right: 1000, bottom: 0, top: 0 }
    }

    /// Preset: the `bottom_left` anchor arrangement, in thousandths.
    pub fn bottom_left() -> (r: Anchors)
        ensures
            r == (Anchors { left: 0i64, right: 0i64, bottom: 0i64, top: 0i64 }),
    {
        Anchors { left: 0, right: 0, bottom: 0, top: 0 }
    }

    /// Preset: the `bottom_right` anchor arrangement, in thousandths.
    pub fn bottom_right() -> (r: Anchors)
        ensures
            r == (Anchors { left: 1000i64, right: 1000i64, bottom: 0i64, top: 0i64 }),
    {
        Anchors { left: 1000, right: 1000, bottom: 0, top: 0 }
    }

    /// Preset: the `center` anchor arrangement, in thousandths.
    pub fn center() -> (r: Anchors)
        ensures
            r == (Anchors { left: 500i64, right: 500i64, bottom: 500i64, top: 500i64 }),
    {
        Anchors { left: 500, right: 500, bottom: 500, top: 500 }
    }

    /// Preset: the `center_bottom` anchor arrangement, in thousandths.
    pub fn center_bottom() -> (r: Anchors)
        ensures
            r == (Anchors { left: 500i64, right: 500i64, bottom: 0i64, top: 0i64 }),
    {
        Anchors { left: 500, right: 500, bottom: 0, top: 0 }
    }

    /// Preset: the `center_full_horizontal` anchor arrangement, in thousandths.
    pub fn center_full_horizontal() -> (r: Anchors)
        ensures
            r == (Anchors { left: 0i64, right: 1000i64, bottom: 500i64, top: 500i64 }),
    {
        Anchors { left: 0, right: 1000, bottom: 500, top: 500 }
    }

    /// Preset: the `center_full_vertical` anchor arrangement, in thousandths.
    pub fn center_full_vertical() -> (r: Anchors)
        ensures
            r == (Anchors { left: 500i64, right: 500i64, bottom: 0i64, top: 1000i64 }),
    {
        Anchors { left: 500, right: 500, bottom: 0, top: 1000 }
    }

    /// Preset: the `center_left` anchor arrangement, in thousandths.
    pub fn center_left() -> (r: Anchors)
        ensures
            r == (Anchors { left: 0i64, right: 0i64, bottom: 500i64, top: 500i64 }),
    {
        Anchors { left: 0, right: 0, bottom: 500, top: 500 }
    }

    /// Preset: the `center_right` anchor arrangement, in thousandths.
    pub fn center_right() -> (r: Anchors)
        ensures
            r == (Anchors { left: 1000i64, right: 1000i64, bottom: 500i64, top: 500i64 }),
    {
        Anchors { left: 1000, right: 1000, bottom: 500, top: 500 }
    }

    /// Preset: the `center_top` anchor arrangement, in thousandths.
    pub fn center_top() -> (r: Anchors)
        ensures
            r == (Anchors { left: 500i64, right: 500i64, bottom: 1000i64, top: 1000i64 }),
    {
        Anchors { left: 500, right: 500, bottom: 1000, top: 1000 }
    }

    /// Preset: the `full` anchor arrangement, in thousandths.
    pub fn full() -> (r: Anchors)
        ensures
            r == (Anchors { left: 0i64, right: 1000i64, bottom: 0i64, top: 1000i64 }),
    {
        Anchors { left: 0, right: 1000, bottom: 0, top: 1000 }
    }

    /// Preset: the `left_full` anchor arrangement, in thousandths.
    pub fn left_full() -> (r: Anchors)
        ensures
            r == (Anchors { left: 0i64, right: 0i64, bottom: 0i64, top: 1000i64 }),
    {
        Anchors { left: 0, right: 0, bottom: 0, top: 1000 }
    }

    /// Preset: the `right_full` anchor arrangement, in thousandths.
    pub fn right_full() -> (r: Anchors)
        ensures
            r == (Anchors { left: 1000i64, right: 1000i64, bottom: 0i64, top: 1000i64 }),
    {
        Anchors { left: 1000, right: 1000, bottom: 0, top: 1000 }
    }

    /// Preset: the `top_full` anchor arrangement, in thousandths.
    pub fn top_full() -> (r: Anchors)
        ensures
            r == (Anchors { left: 0i64, right: 1000i64, bottom: 1000i64, top: 1000i64 }),
    {
        Anchors { left: 0, right: 1000, bottom: 1000, top: 1000 }
    }

    /// Preset: the `top_left` anchor arrangement, in thousandths.
    pub fn top_left() -> (r: Anchors)
        ensures
            r == (Anchors { left: 0i64, right: 0i64, bottom: 1000i64, top: 1000i64 }),
    {
        Anchors { left: 0, right: 0, bottom: 1000, top: 1000 }
    }

    /// Preset: the `top_right` anchor arrangement, in thousandths.
    pub fn top_right() -> (r: Anchors)
        ensures
            r == (Anchors { left: 1000i64, right: 1000i64, bottom: 1000i64, top: 1000i64 }),
    {
        Anchors { left: 1000, right: 1000, bottom: 1000, top: 1000 }
    }
}

impl Default for Anchors {
    fn default() -> (r: Self)
        ensures
            r == (Anchors { left: 0i64, right: 0i64, bottom: 0i64, top: 0i64 }),
    {
        Anchors { left: 0, right: 0, bottom: 0, top: 0 }
    }
}

/// A rule resolving one axis's offset and size from padding and size
/// specifications, relative to the node's anchor window.
#[derive(Clone, Copy, Debug, PartialEq, Eq, Structural)]
pub enum AxisConstraint {
    /// `size = window - p1 - p2`, offset from the near padding `p1`.
    DoublePadding(i64, i64),
    /// Explicit size, offset from the near padding `p1`.
    PaddingAndSize(i64, i64),
    /// Explicit size anchored from the far edge by padding `p2`.
    InversePaddingAndSize(i64, i64),
    /// Explicit size, centered in the anchor window.
    Centered(i64),
}

impl AxisConstraint {
    pub open spec fn wf(self) -> bool {
        match self {
            AxisConstraint::DoublePadding(p1, p2) => -COORD_LIMIT <= p1 <= COORD_LIMIT
                && -COORD_LIMIT <= p2 <= COORD_LIMIT,
            AxisConstraint::PaddingAndSize(p1, s) => -COORD_LIMIT <= p1 <= COORD_LIMIT
                && -COORD_LIMIT <= s <= COORD_LIMIT,
            AxisConstraint::InversePaddingAndSize(p2, s) => -COORD_LIMIT <= p2 <= COORD_LIMIT
                && -COORD_LIMIT <= s <= COORD_LIMIT,
            AxisConstraint::Centered(s) => -COORD_LIMIT <= s <= COORD_LIMIT,
        }
    }

    /// Executable form of [`AxisConstraint::wf`].
    pub fn is_wf(&self) -> (b: bool)
        ensures
            b == self.wf(),
    {
        let (a, c): (i64, i64) = match *self {
            AxisConstraint::DoublePadding(p1, p2) => (p1, p2),
            AxisConstraint::PaddingAndSize(p1, s) => (p1, s),
            AxisConstraint::InversePaddingAndSize(p2, s) => (p2, s),
            AxisConstraint::Centered(s) => (s, 0),
        };
        -COORD_LIMIT <= a && a <= COORD_LIMIT && -COORD_LIMIT <= c && c <= COORD_LIMIT
    }
}

impl Default for AxisConstraint {
    fn default() -> (r: Self)
        ensures
            r == AxisConstraint::DoublePadding(0i64, 0i64),
    {
        AxisConstraint::DoublePadding(0, 0)
    }
}

/// An aspect ratio width : height, held as the positive fraction
/// `num / den`.
#[derive(Clone, Copy, Debug, PartialEq, Eq, Structural)]
pub struct Aspect {
    pub num: i64,
    pub den: i64,
}

impl Aspect {
    pub open spec fn wf(self) -> bool {
        &&& 1 <= self.num <= ASPECT_LIMIT
        &&& 1 <= self.den <= ASPECT_LIMIT
    }

    /// Executable form of [`Aspect::wf`].
    pub fn is_wf(&self) -> (b: bool)
        ensures
            b == self.wf(),
    {
        1 <= self.num && self.num <= ASPECT_LIMIT && 1 <= self.den
            && self.den <= ASPECT_LIMIT
    }
}

/// The closed choice of how a node's two axes are resolved. Exactly one
/// variant is active.
#[derive(Clone, Copy, Debug, PartialEq, Eq, Structural)]
pub enum Constraint {
    /// Both axes solved independently.
    Independent { x: AxisConstraint, y: AxisConstraint },
    /// y solved first; x's size derived as `y_size * aspect` and centered.
    SetXWithY { y: AxisConstraint, aspect: Aspect },
    /// x solved first; y's size derived as `x_size / aspect` and centered.
    SetYWithX { x: AxisConstraint, aspect: Aspect },
    /// Largest size of the given aspect that fits the available space; this
    /// variant sizes the node without repositioning it.
    MaxAspect(Aspect),
}

impl Constraint {
    pub open spec fn wf(self) -> bool {
        match self {
            Constraint::Independent { x, y } => x.wf() && y.wf(),
            Constraint::SetXWithY { y, aspect } => y.wf() && aspect.wf(),
            Constraint::SetYWithX { x, aspect } => x.wf() && aspect.wf(),
            Constraint::MaxAspect(aspect) => aspect.wf(),
        }
    }

    /// Executable form of [`Constraint::wf`].
    pub fn is_wf(&self) -> (b: bool)
        ensures
            b == self.wf(),
    {
        match self {
            Constraint::Independent { x, y } => x.is_wf() && y.is_wf(),
            Constraint::SetXWithY { y, aspect } => y.is_wf() && aspect.is_wf(),
            Constraint::SetYWithX { x, aspect } => x.is_wf() && aspect.is_wf(),
            Constraint::MaxAspect(aspect) => aspect.is_wf(),
        }
    }
}

impl Default for Constraint {
    fn default() -> (r: Self)
        ensures
            r == (Constraint::Independent {
                x: AxisConstraint::DoublePadding(0i64, 0i64),
                y: AxisConstraint::DoublePadding(0i64, 0i64),
            }),
    {
        Constraint::Independent {
            x: AxisConstraint::DoublePadding(0, 0),
            y: AxisConstraint::DoublePadding(0, 0),
        }
    }
}

/// Weighted, clamped sizing data carried by a node whose parent distributes
/// its children along one axis.
#[derive(Clone, Copy, Debug, PartialEq, Eq, Structural)]
pub struct ChildConstraint {
    pub weight: i64,
    pub min_size: i64,
    pub max_size: i64,
}

impl ChildConstraint {
    pub open spec fn wf(self) -> bool {
        &&& 0 <= self.weight <= WEIGHT_LIMIT
        &&& -COORD_LIMIT <= self.min_size
        &&& self.min_size <= self.max_size
        &&& self.max_size <= COORD_LIMIT
    }

    /// Executable form of [`ChildConstraint::wf`].
    pub fn is_wf(&self) -> (b: bool)
        ensures
            b == self.wf(),
    {
        0 <= self.weight && self.weight <= WEIGHT_LIMIT && -COORD_LIMIT <= self.min_size
            && self.min_size <= self.max_size && self.max_size <= COORD_LIMIT
    }
}

impl Default for ChildConstraint {
    fn default() -> (r: Self)
        ensures
            r == (ChildConstraint { weight: 1i64, min_size: 0i64, max_size: COORD_LIMIT }),
    {
        ChildConstraint { weight: 1, min_size: 0, max_size: COORD_LIMIT }
    }
}

/// Along which axis, and in which sense, a container distributes its
/// children.
#[derive(Clone, Copy, Debug, PartialEq, Eq, Structural)]
pub enum Direction {
    Up,
    Down,
    Left,
    Right,
}

/// Spread configuration of a container node: the margin kept between
/// neighbouring children and the direction of the distribution axis.
#[derive(Clone, Copy, Debug, PartialEq, Eq, Structural)]
pub struct SpreadConstraint {
    pub margin: i64,
    pub direction: Direction,
}

impl SpreadConstraint {
    pub open spec fn wf(self) -> bool {
        -COORD_LIMIT <= self.margin <= COORD_LIMIT
    }

    /// Executable form of [`SpreadConstraint::wf`].
    pub fn is_wf(&self) -> (b: bool)
        ensures
            b == self.wf(),
    {
        -COORD_LIMIT <= self.margin && self.margin <= COORD_LIMIT
    }
}

/// The layout-relevant configuration of one tree element.
#[derive(Clone, Copy, Debug, PartialEq, Eq)]
pub struct ANode {
    pub anchors: Anchors,
    pub constraint: Constraint,
    /// Present only on container nodes that distribute children along one
    /// axis instead of giving each child the full parent-produced space.
    pub children_spread: Option<SpreadConstraint>,
    /// Present exactly on nodes whose parent uses spread distribution.
    pub child_constraint: Option<ChildConstraint>,
}

impl ANode {
    pub open spec fn wf(self) -> bool {
        &&& self.anchors.wf()
        &&& self.constraint.wf()
        &&& match self.children_spread {
            Some(s) => s.wf(),
            None => true,
        }
        &&& match self.child_constraint {
            Some(c) => c.wf(),
            None => true,
        }
    }

    /// Executable form of [`ANode::wf`].
    pub fn is_wf(&self) -> (b: bool)
        ensures
            b == self.wf(),
    {
        let spread_ok: bool = match &self.children_spread {
            Some(s) => s.is_wf(),
            None => true,
        };
        let child_ok: bool = match &self.child_constraint {
            Some(c) => c.is_wf(),
            None => true,
        };
        self.anchors.is_wf() && self.constraint.is_wf() && spread_ok && child_ok
    }
}

impl Default for ANode {
    fn default() -> (r: Self)
        ensures
            r.anchors == (Anchors { left: 0i64, right: 0i64, bottom: 0i64, top: 0i64 }),
            r.constraint == (Constraint::Independent {
                x: AxisConstraint::DoublePadding(0i64, 0i64),
                y: AxisConstraint::DoublePadding(0i64, 0i64),
            }),
            r.children_spread is None,
            r.child_constraint is None,
    {
        ANode {
            anchors: Anchors { left: 0, right: 0, bottom: 0, top: 0 },
            constraint: Constraint::Independent {
                x: AxisConstraint::DoublePadding(0, 0),
                y: AxisConstraint::DoublePadding(0, 0),
            },
            children_spread: None,
            child_constraint: None,
        }
    }
}

/// Why a solve pass aborted. Either kind carries the offending node's
/// identifier; the failed node's subtree is left at its last previously
/// written values.
#[derive(Clone, Copy, Debug, PartialEq, Eq, Structural)]
pub enum SolveError {
    /// A spread node with a child missing its per-child constraint data, a
    /// non-spread node with a child carrying such data, a spread pass whose
    /// unresolved children have no positive weight left, or a skip pass
    /// missing its size cache.
    Configuration { node: usize },
    /// Recursion depth exceeded the solver's ceiling (a cycle handed in as a
    /// tree, or a pathologically deep tree).
    ResourceExhaustion { node: usize },
}

} // verus!
