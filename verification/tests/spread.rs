use aui::spread::distribute;
use aui::types::ChildConstraint;
use aui::num::COORD_LIMIT;

fn child(weight: i64, min_size: i64, max_size: i64) -> ChildConstraint {
    ChildConstraint { weight, min_size, max_size }
}

#[test]
fn spread_clamp_example() {
    // axis 300, margin 0, weights (1,1,1), child 2 capped at 50:
    // the cap pins it, the freed length redistributes to (125, 50, 125).
    let cons = vec![
        child(1, 0, COORD_LIMIT),
        child(1, 0, 50),
        child(1, 0, COORD_LIMIT),
    ];
    let lens = distribute(300, 0, &cons).unwrap();
    assert_eq!(lens, vec![125, 50, 125]);
}

#[test]
fn spread_even_split_conserves_length() {
    // axis 320, margin 10 between three children: free = 300, 100 each;
    // lengths plus margins give back the axis exactly.
    let cons = vec![
        child(1, 0, COORD_LIMIT),
        child(1, 0, COORD_LIMIT),
        child(1, 0, COORD_LIMIT),
    ];
    let lens = distribute(320, 10, &cons).unwrap();
    assert_eq!(lens, vec![100, 100, 100]);
    let total: i64 = lens.iter().sum::<i64>() + 10 * (lens.len() as i64 - 1);
    assert_eq!(total, 320);
}

#[test]
fn spread_min_clamp_redistributes() {
    // proportional share 50 each; child 0's floor of 80 pins it and the
    // remaining 20 go to child 1.
    let cons = vec![child(1, 80, COORD_LIMIT), child(1, 0, COORD_LIMIT)];
    let lens = distribute(100, 0, &cons).unwrap();
    assert_eq!(lens, vec![80, 20]);
}

#[test]
fn spread_weighted_shares() {
    let cons = vec![child(3, 0, COORD_LIMIT), child(1, 0, COORD_LIMIT)];
    let lens = distribute(400, 0, &cons).unwrap();
    assert_eq!(lens, vec![300, 100]);
}

#[test]
fn spread_idempotent() {
    // no hidden state: the same inputs give the same outputs, run after run
    let cons = vec![
        child(2, 10, 180),
        child(5, 0, 90),
        child(1, 25, COORD_LIMIT),
    ];
    let a = distribute(333, 7, &cons);
    let b = distribute(333, 7, &cons);
    assert_eq!(a, b);
}

#[test]
fn spread_all_lengths_within_bounds() {
    let cons = vec![child(1, 30, 40), child(1, 0, 10), child(4, 0, COORD_LIMIT)];
    let lens = distribute(500, 0, &cons).unwrap();
    for (l, c) in lens.iter().zip(cons.iter()) {
        assert!(c.min_size <= *l && *l <= c.max_size);
    }
}

#[test]
fn spread_zero_weights_fail() {
    // all weights zero: the pool is empty before anyone resolves —
    // a solver failure, not a division by zero
    let cons = vec![child(0, 0, COORD_LIMIT), child(0, 0, COORD_LIMIT)];
    assert!(distribute(100, 0, &cons).is_err());
}

#[test]
fn spread_zero_weight_after_locks_fails() {
    // the only positive weight locks at its cap; the rest have no weight left
    let cons = vec![child(1, 0, 10), child(0, 0, COORD_LIMIT)];
    assert!(distribute(100, 0, &cons).is_err());
}

#[test]
fn spread_empty_children() {
    let cons: Vec<ChildConstraint> = Vec::new();
    let lens = distribute(100, 5, &cons).unwrap();
    assert!(lens.is_empty());
}
