use aui::tree::{Tree, solve_subtree, solve_subtree_incremental};
use aui::types::{
    ANode, Anchors, AxisConstraint, Aspect, ChildConstraint, Constraint, Direction,
    SolveError, SpreadConstraint,
};
use aui::num::COORD_LIMIT;

fn full_anchors() -> Anchors {
    Anchors::new(0, 1000, 0, 1000)
}

fn fill_node() -> ANode {
    ANode {
        anchors: full_anchors(),
        constraint: Constraint::Independent {
            x: AxisConstraint::DoublePadding(0, 0),
            y: AxisConstraint::DoublePadding(0, 0),
        },
        children_spread: None,
        child_constraint: None,
    }
}

fn spread_child(weight: i64, min_size: i64, max_size: i64) -> ANode {
    let mut n = fill_node();
    n.child_constraint = Some(ChildConstraint { weight, min_size, max_size });
    n
}

#[test]
fn solve_plain_tree() {
    let mut t = Tree::new();
    let mut centered = fill_node();
    centered.constraint = Constraint::Independent {
        x: AxisConstraint::Centered(200),
        y: AxisConstraint::Centered(100),
    };
    let mut corner = fill_node();
    corner.anchors = Anchors::new(0, 0, 0, 0);
    corner.constraint = Constraint::Independent {
        x: AxisConstraint::PaddingAndSize(10, 50),
        y: AxisConstraint::PaddingAndSize(20, 30),
    };
    let c1 = t.push_node(centered, Vec::new());
    let c2 = t.push_node(corner, Vec::new());
    let root = t.push_node(fill_node(), vec![c1, c2]);

    solve_subtree(&mut t, root, 800, 600).unwrap();

    assert_eq!((t.sw[root], t.sh[root]), (800, 600));
    assert_eq!((t.tx[root], t.ty[root], t.tz[root]), (0, 0, 0));

    assert_eq!((t.sw[c1], t.sh[c1]), (200, 100));
    assert_eq!((t.tx[c1], t.ty[c1]), (0, 0));

    assert_eq!((t.sw[c2], t.sh[c2]), (50, 30));
    assert_eq!((t.tx[c2], t.ty[c2]), (-365, -265));
}

#[test]
fn z_descends_one_step_per_level() {
    let mut t = Tree::new();
    let leaf = t.push_node(fill_node(), Vec::new());
    let mid = t.push_node(fill_node(), vec![leaf]);
    let root = t.push_node(fill_node(), vec![mid]);
    solve_subtree(&mut t, root, 100, 100).unwrap();
    assert_eq!(t.tz[root], 0);
    assert_eq!(t.tz[mid], t.tz[root] - 1);
    assert_eq!(t.tz[leaf], t.tz[mid] - 1);
}

#[test]
fn max_aspect_exact_fit() {
    // available (200, 100), aspect 2: height-derived width 200 fits exactly
    let mut t = Tree::new();
    let mut n = fill_node();
    n.constraint = Constraint::MaxAspect(Aspect { num: 2, den: 1 });
    let root = t.push_node(n, Vec::new());
    solve_subtree(&mut t, root, 200, 100).unwrap();
    assert_eq!((t.sw[root], t.sh[root]), (200, 100));
}

#[test]
fn max_aspect_width_constrained() {
    // aspect 4: full height would need width 400; width caps it at (200, 50)
    let mut t = Tree::new();
    let mut n = fill_node();
    n.constraint = Constraint::MaxAspect(Aspect { num: 4, den: 1 });
    let root = t.push_node(n, Vec::new());
    solve_subtree(&mut t, root, 200, 100).unwrap();
    assert_eq!((t.sw[root], t.sh[root]), (200, 50));
}

#[test]
fn max_aspect_height_constrained() {
    // aspect 1: the square of the shorter side, (100, 100)
    let mut t = Tree::new();
    let mut n = fill_node();
    n.constraint = Constraint::MaxAspect(Aspect { num: 1, den: 1 });
    let root = t.push_node(n, Vec::new());
    solve_subtree(&mut t, root, 200, 100).unwrap();
    assert_eq!((t.sw[root], t.sh[root]), (100, 100));
}

#[test]
fn max_aspect_keeps_prior_position() {
    // MaxAspect sizes the node without repositioning it
    let mut t = Tree::new();
    let mut n = fill_node();
    n.constraint = Constraint::MaxAspect(Aspect { num: 1, den: 1 });
    let root = t.push_node(n, Vec::new());
    t.tx[root] = 7;
    t.ty[root] = 9;
    solve_subtree(&mut t, root, 200, 100).unwrap();
    assert_eq!((t.tx[root], t.ty[root]), (7, 9));
    assert_eq!((t.sw[root], t.sh[root]), (100, 100));
}

#[test]
fn set_x_with_y_derives_width() {
    // y solves to 100; x becomes 100 * 3/2 = 150, centered
    let mut t = Tree::new();
    let mut n = fill_node();
    n.constraint = Constraint::SetXWithY {
        y: AxisConstraint::Centered(100),
        aspect: Aspect { num: 3, den: 2 },
    };
    let root = t.push_node(n, Vec::new());
    solve_subtree(&mut t, root, 400, 300).unwrap();
    assert_eq!((t.sw[root], t.sh[root]), (150, 100));
    assert_eq!((t.tx[root], t.ty[root]), (0, 0));
}

#[test]
fn set_y_with_x_derives_height() {
    // x solves to 200; y becomes 200 / 2 = 100, centered
    let mut t = Tree::new();
    let mut n = fill_node();
    n.constraint = Constraint::SetYWithX {
        x: AxisConstraint::Centered(200),
        aspect: Aspect { num: 2, den: 1 },
    };
    let root = t.push_node(n, Vec::new());
    solve_subtree(&mut t, root, 400, 300).unwrap();
    assert_eq!((t.sw[root], t.sh[root]), (200, 100));
}

fn spread_tree() -> (Tree, usize, [usize; 3]) {
    let mut t = Tree::new();
    let a = t.push_node(spread_child(1, 0, COORD_LIMIT), Vec::new());
    let b = t.push_node(spread_child(1, 0, 50), Vec::new());
    let c = t.push_node(spread_child(1, 0, COORD_LIMIT), Vec::new());
    let mut root_node = fill_node();
    root_node.children_spread = Some(SpreadConstraint {
        margin: 0,
        direction: Direction::Right,
    });
    let root = t.push_node(root_node, vec![a, b, c]);
    (t, root, [a, b, c])
}

#[test]
fn spread_positions_and_cache() {
    let (mut t, root, [a, b, c]) = spread_tree();
    solve_subtree(&mut t, root, 300, 100).unwrap();

    // water-filling: (125, 50, 125); each child fills the cross axis
    assert_eq!((t.sw[a], t.sh[a]), (125, 100));
    assert_eq!((t.sw[b], t.sh[b]), (50, 100));
    assert_eq!((t.sw[c], t.sh[c]), (125, 100));

    // positions along the axis, centered convention: the spread offset
    // (off + len/2 - 300/2) plus the child's own centering, which for the
    // odd length 125 contributes -1 (two floored halvings)
    assert_eq!(t.tx[a], (0 + 62 - 150) - 1);
    assert_eq!(t.tx[b], 125 + 25 - 150);
    assert_eq!(t.tx[c], (175 + 62 - 150) - 1);
    assert_eq!((t.ty[a], t.ty[b], t.ty[c]), (0, 0, 0));

    // the spread pass caches the allotted sizes in child order
    assert_eq!(
        t.cache[root].as_ref().unwrap().as_slice(),
        &[(125, 100), (50, 100), (125, 100)]
    );

    // children sit one step closer to the camera than the container
    assert_eq!(t.tz[a], t.tz[root] - 1);
}

#[test]
fn spread_direction_up() {
    let mut t = Tree::new();
    let a = t.push_node(spread_child(1, 0, COORD_LIMIT), Vec::new());
    let b = t.push_node(spread_child(1, 0, COORD_LIMIT), Vec::new());
    let mut root_node = fill_node();
    root_node.children_spread = Some(SpreadConstraint {
        margin: 0,
        direction: Direction::Up,
    });
    let root = t.push_node(root_node, vec![a, b]);
    solve_subtree(&mut t, root, 100, 200).unwrap();
    // axis is y: 100 each; a at 0 + 50 - 100, b at 100 + 50 - 100
    assert_eq!((t.sw[a], t.sh[a]), (100, 100));
    assert_eq!(t.ty[a], -50);
    assert_eq!(t.ty[b], 50);
    assert_eq!((t.tx[a], t.tx[b]), (0, 0));
}

#[test]
fn incremental_matches_full_when_unchanged() {
    let (mut t, root, _) = spread_tree();
    solve_subtree(&mut t, root, 300, 100).unwrap();
    for f in t.changed.iter_mut() {
        *f = false;
    }
    for f in t.kids_changed.iter_mut() {
        *f = false;
    }
    let before = (t.tx.clone(), t.ty.clone(), t.tz.clone(), t.sw.clone(), t.sh.clone());
    solve_subtree_incremental(&mut t, root, 300, 100).unwrap();
    let after = (t.tx.clone(), t.ty.clone(), t.tz.clone(), t.sw.clone(), t.sh.clone());
    assert_eq!(before, after);
}

#[test]
fn incremental_matches_full_after_change() {
    // change one child's cap, flag it, and re-solve incrementally: the
    // outputs must equal a fresh full solve of the same configuration
    let (mut t, root, [_, b, _]) = spread_tree();
    solve_subtree(&mut t, root, 300, 100).unwrap();
    for f in t.changed.iter_mut() {
        *f = false;
    }
    for f in t.kids_changed.iter_mut() {
        *f = false;
    }
    t.conf[b].child_constraint = Some(ChildConstraint {
        weight: 1,
        min_size: 0,
        max_size: 80,
    });
    t.changed[b] = true;
    solve_subtree_incremental(&mut t, root, 300, 100).unwrap();

    let (mut fresh, froot, [_, fb, _]) = spread_tree();
    fresh.conf[fb].child_constraint = Some(ChildConstraint {
        weight: 1,
        min_size: 0,
        max_size: 80,
    });
    solve_subtree(&mut fresh, froot, 300, 100).unwrap();

    assert_eq!(t.tx, fresh.tx);
    assert_eq!(t.ty, fresh.ty);
    assert_eq!(t.tz, fresh.tz);
    assert_eq!(t.sw, fresh.sw);
    assert_eq!(t.sh, fresh.sh);
}

#[test]
fn spread_zero_weights_configuration_error() {
    let mut t = Tree::new();
    let a = t.push_node(spread_child(0, 0, COORD_LIMIT), Vec::new());
    let b = t.push_node(spread_child(0, 0, COORD_LIMIT), Vec::new());
    let mut root_node = fill_node();
    root_node.children_spread = Some(SpreadConstraint {
        margin: 0,
        direction: Direction::Left,
    });
    let root = t.push_node(root_node, vec![a, b]);
    let r = solve_subtree(&mut t, root, 100, 100);
    assert_eq!(r, Err(SolveError::Configuration { node: root }));
}

#[test]
fn spread_child_missing_constraint_error() {
    let mut t = Tree::new();
    let a = t.push_node(spread_child(1, 0, COORD_LIMIT), Vec::new());
    let b = t.push_node(fill_node(), Vec::new()); // lacks child_constraint
    let mut root_node = fill_node();
    root_node.children_spread = Some(SpreadConstraint {
        margin: 0,
        direction: Direction::Right,
    });
    let root = t.push_node(root_node, vec![a, b]);
    let r = solve_subtree(&mut t, root, 100, 100);
    assert_eq!(r, Err(SolveError::Configuration { node: b }));
}

#[test]
fn plain_parent_with_spread_child_error() {
    let mut t = Tree::new();
    let a = t.push_node(spread_child(1, 0, COORD_LIMIT), Vec::new());
    let root = t.push_node(fill_node(), vec![a]);
    let r = solve_subtree(&mut t, root, 100, 100);
    assert_eq!(r, Err(SolveError::Configuration { node: a }));
}

#[test]
fn cycle_exhausts_depth_budget() {
    let mut t = Tree::new();
    let root = t.push_node(fill_node(), vec![0]);
    let r = solve_subtree(&mut t, root, 100, 100);
    assert!(matches!(r, Err(SolveError::ResourceExhaustion { .. })));
}

#[test]
fn skip_without_cache_is_configuration_error() {
    // a node flagged unchanged whose spread cache was never written cannot
    // replay and reports itself
    let (mut t, root, _) = spread_tree();
    for f in t.changed.iter_mut() {
        *f = false;
    }
    for f in t.kids_changed.iter_mut() {
        *f = false;
    }
    let r = solve_subtree_incremental(&mut t, root, 300, 100);
    assert_eq!(r, Err(SolveError::Configuration { node: root }));
}

#[test]
fn failed_subtree_keeps_previous_values() {
    // a failure leaves the failed node's subtree at its last written values
    let mut t = Tree::new();
    let a = t.push_node(fill_node(), Vec::new());
    let root = t.push_node(fill_node(), vec![a]);
    solve_subtree(&mut t, root, 100, 100).unwrap();
    assert_eq!(t.sw[a], 100);
    // now make the configuration invalid and re-solve with a larger space
    t.conf[a].child_constraint = Some(ChildConstraint {
        weight: 1,
        min_size: 0,
        max_size: COORD_LIMIT,
    });
    let r = solve_subtree(&mut t, root, 500, 500);
    assert!(r.is_err());
    // the child's outputs still hold the previous pass's values
    assert_eq!(t.sw[a], 100);
}

#[test]
fn check_wf_accepts_and_rejects() {
    let (mut t, _, [a, _, _]) = spread_tree();
    assert!(t.check_wf());
    // a child identifier out of bounds breaks the store invariant
    t.kids[3] = vec![a, 99];
    assert!(!t.check_wf());
}

#[test]
fn check_wf_rejects_bad_constraint() {
    let mut t = Tree::new();
    let root = t.push_node(fill_node(), Vec::new());
    assert!(t.check_wf());
    t.conf[root].constraint = Constraint::MaxAspect(Aspect { num: 0, den: 1 });
    assert!(!t.check_wf());
}

#[test]
fn node_wf_checks() {
    assert!(fill_node().is_wf());
    let mut bad = fill_node();
    bad.anchors = Anchors::new(0, 2_000_000, 0, 0);
    assert!(!bad.is_wf());
    let mut swapped = spread_child(1, 10, 5);
    assert!(!swapped.is_wf());
    swapped.child_constraint = Some(ChildConstraint { weight: 1, min_size: 5, max_size: 10 });
    assert!(swapped.is_wf());
}

#[test]
fn spread_direction_down_and_left() {
    // Down walks from the top edge downward, Left from the right edge leftward
    for (dir, space, axis_is_x) in [
        (Direction::Down, (100i64, 200i64), false),
        (Direction::Left, (200, 100), true),
    ] {
        let mut t = Tree::new();
        let a = t.push_node(spread_child(1, 0, COORD_LIMIT), Vec::new());
        let b = t.push_node(spread_child(1, 0, COORD_LIMIT), Vec::new());
        let mut root_node = fill_node();
        root_node.children_spread = Some(SpreadConstraint { margin: 0, direction: dir });
        let root = t.push_node(root_node, vec![a, b]);
        solve_subtree(&mut t, root, space.0, space.1).unwrap();
        if axis_is_x {
            assert_eq!((t.tx[a], t.tx[b]), (50, -50));
            assert_eq!((t.ty[a], t.ty[b]), (0, 0));
            assert_eq!((t.sw[a], t.sh[a]), (100, 100));
        } else {
            assert_eq!((t.ty[a], t.ty[b]), (50, -50));
            assert_eq!((t.tx[a], t.tx[b]), (0, 0));
            assert_eq!((t.sw[a], t.sh[a]), (100, 100));
        }
    }
}

#[test]
fn spread_margin_between_children() {
    // free = 320 - 2 * 10 = 300, 100 each; margins separate the slots
    let mut t = Tree::new();
    let a = t.push_node(spread_child(1, 0, COORD_LIMIT), Vec::new());
    let b = t.push_node(spread_child(1, 0, COORD_LIMIT), Vec::new());
    let c = t.push_node(spread_child(1, 0, COORD_LIMIT), Vec::new());
    let mut root_node = fill_node();
    root_node.children_spread = Some(SpreadConstraint {
        margin: 10,
        direction: Direction::Right,
    });
    let root = t.push_node(root_node, vec![a, b, c]);
    solve_subtree(&mut t, root, 320, 100).unwrap();
    assert_eq!((t.sw[a], t.sw[b], t.sw[c]), (100, 100, 100));
    assert_eq!((t.tx[a], t.tx[b], t.tx[c]), (-110, 0, 110));
}

#[test]
fn incremental_deep_change_matches_full() {
    // a three-level tree: only the leaf changes; the unchanged levels skip,
    // the leaf's subtree re-derives, and the outcome equals a fresh solve
    fn build() -> (Tree, usize, usize) {
        let mut t = Tree::new();
        let mut leaf_node = fill_node();
        leaf_node.constraint = Constraint::Independent {
            x: AxisConstraint::Centered(40),
            y: AxisConstraint::Centered(20),
        };
        let leaf = t.push_node(leaf_node, Vec::new());
        let mid = t.push_node(fill_node(), vec![leaf]);
        let root = t.push_node(fill_node(), vec![mid]);
        (t, root, leaf)
    }
    let (mut t, root, leaf) = build();
    solve_subtree(&mut t, root, 400, 300).unwrap();
    for f in t.changed.iter_mut() {
        *f = false;
    }
    for f in t.kids_changed.iter_mut() {
        *f = false;
    }
    t.conf[leaf].constraint = Constraint::Independent {
        x: AxisConstraint::Centered(60),
        y: AxisConstraint::Centered(30),
    };
    t.changed[leaf] = true;
    solve_subtree_incremental(&mut t, root, 400, 300).unwrap();

    let (mut fresh, froot, fleaf) = build();
    fresh.conf[fleaf].constraint = Constraint::Independent {
        x: AxisConstraint::Centered(60),
        y: AxisConstraint::Centered(30),
    };
    solve_subtree(&mut fresh, froot, 400, 300).unwrap();
    assert_eq!(t.sw[leaf], 60);
    assert_eq!(t.tx, fresh.tx);
    assert_eq!(t.ty, fresh.ty);
    assert_eq!(t.tz, fresh.tz);
    assert_eq!(t.sw, fresh.sw);
    assert_eq!(t.sh, fresh.sh);
}
