use aui::axis::AxisSolve;
use aui::types::{Anchors, AxisConstraint, Constraint, ChildConstraint, ANode};
use aui::num::COORD_LIMIT;

fn full_x() -> (i64, i64) {
    (0, 1000)
}

#[test]
fn axis_double_padding_exact() {
    // window = 800, size = 800 - 10 - 20, offset = -400 + 10 + 385
    let r: AxisSolve = AxisConstraint::DoublePadding(10, 20).solve(full_x(), 800);
    assert_eq!(r.size, 770);
    assert_eq!(r.offset, -5);
}

#[test]
fn axis_padding_and_size_exact() {
    // window irrelevant to size; offset = 800 * (0 - 1/2) + 10 + 25
    let r = AxisConstraint::PaddingAndSize(10, 50).solve(full_x(), 800);
    assert_eq!(r.size, 50);
    assert_eq!(r.offset, -365);
}

#[test]
fn axis_inverse_padding_and_size_exact() {
    // p1 = window - p2 - s = 800 - 20 - 50; offset = -400 + 730 + 25
    let r = AxisConstraint::InversePaddingAndSize(20, 50).solve(full_x(), 800);
    assert_eq!(r.size, 50);
    assert_eq!(r.offset, 355);
}

#[test]
fn axis_centered_exact() {
    // p1 = (800 - 200) / 2 = 300; offset = -400 + 300 + 100 = 0
    let r = AxisConstraint::Centered(200).solve(full_x(), 800);
    assert_eq!(r.size, 200);
    assert_eq!(r.offset, 0);
}

#[test]
fn axis_centered_round_trip_balanced() {
    // Centered leaves equal paddings inside the anchor window (within one
    // unit when the slack is odd).
    for (avail, s) in [(800i64, 200i64), (801, 200), (500, 123), (101, 50)] {
        let r = AxisConstraint::Centered(s).solve((0, 1000), avail);
        let window = avail; // full anchors: window == avail
        // reconstruct p1 from the centered formula
        let slack = window - s;
        let p1 = slack.div_euclid(2);
        let p2 = window - s - p1;
        assert!(p2 - p1 == 0 || p2 - p1 == 1);
        if slack % 2 == 0 {
            assert_eq!(p1, p2);
        }
        assert_eq!(r.size, s);
    }
}

#[test]
fn axis_partial_anchor_window() {
    // anchors [1/4, 3/4] of 400: window = 200; size = 200; offset = 400*(-1/4) + 0 + 100
    let r = AxisConstraint::DoublePadding(0, 0).solve((250, 750), 400);
    assert_eq!(r.size, 200);
    assert_eq!(r.offset, 0);
}

#[test]
fn axis_negative_size_is_a_value() {
    // impossible padding yields a negative size, not a failure
    let r = AxisConstraint::DoublePadding(300, 300).solve((0, 1000), 400);
    assert_eq!(r.size, -200);
}

#[test]
fn anchors_accessors() {
    let a = Anchors::new(10, 20, 30, 40);
    assert_eq!(a.x(), (10, 20));
    assert_eq!(a.y(), (30, 40));
}

#[test]
fn anchors_default_is_zero() {
    let a = Anchors::default();
    assert_eq!((a.left, a.right, a.bottom, a.top), (0, 0, 0, 0));
}

#[test]
fn constraint_defaults() {
    assert_eq!(AxisConstraint::default(), AxisConstraint::DoublePadding(0, 0));
    match Constraint::default() {
        Constraint::Independent { x, y } => {
            assert_eq!(x, AxisConstraint::DoublePadding(0, 0));
            assert_eq!(y, AxisConstraint::DoublePadding(0, 0));
        },
        _ => panic!("default constraint is Independent"),
    }
    let c = ChildConstraint::default();
    assert_eq!((c.weight, c.min_size, c.max_size), (1, 0, COORD_LIMIT));
    let n = ANode::default();
    assert!(n.children_spread.is_none());
    assert!(n.child_constraint.is_none());
}

#[test]
fn anchors_presets() {
    let c = Anchors::center();
    assert_eq!((c.left, c.right, c.bottom, c.top), (500, 500, 500, 500));
    let f = Anchors::full();
    assert_eq!((f.left, f.right, f.bottom, f.top), (0, 1000, 0, 1000));
    let tr = Anchors::top_right();
    assert_eq!((tr.left, tr.right, tr.bottom, tr.top), (1000, 1000, 1000, 1000));
    assert_eq!(Anchors::bottom_full().x(), (0, 1000));
    assert_eq!(Anchors::center_full_vertical().y(), (0, 1000));
}
