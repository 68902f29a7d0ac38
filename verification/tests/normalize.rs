use intervals::Interval;

#[test]
fn normalize_of_nothing_is_nothing() {
    let none: Vec<Interval<i32>> = Vec::new();
    assert_eq!(Interval::normalize(none), vec![]);
    assert_eq!(Interval::normalize(vec![Interval::open(1, 1), Interval::open(4, 4)]), vec![]);
}

#[test]
fn normalize_keeps_a_single_interval() {
    assert_eq!(Interval::normalize(vec![Interval::left_open(1, 4)]), vec![Interval::left_open(1, 4)]);
}

#[test]
fn normalize_sorts_and_joins() {
    let given = vec![
        Interval::closed(5, 7),
        Interval::open(1, 3),
        Interval::right_open(3, 4),
        Interval::open(2, 2),
        Interval::closed(6, 9),
    ];
    assert_eq!(Interval::normalize(given), vec![Interval::open(1, 4), Interval::closed(5, 9)]);
}

#[test]
fn normalize_joins_touching_intervals_with_a_closed_side() {
    assert_eq!(
        Interval::normalize(vec![Interval::right_open(2, 3), Interval::right_open(1, 2)]),
        vec![Interval::right_open(1, 3)]
    );
    assert_eq!(
        Interval::normalize(vec![Interval::open(2, 3), Interval::open(1, 2)]),
        vec![Interval::open(1, 2), Interval::open(2, 3)]
    );
    assert_eq!(
        Interval::normalize(vec![Interval::open(2, 3), Interval::closed(2, 2), Interval::open(1, 2)]),
        vec![Interval::open(1, 3)]
    );
}

#[test]
fn normalize_puts_the_closed_boundary_first_at_one_point() {
    assert_eq!(
        Interval::normalize(vec![Interval::open(1, 2), Interval::closed(1, 5), Interval::left_open(1, 7)]),
        vec![Interval::closed(1, 7)]
    );
}

#[test]
fn normalize_does_not_depend_on_the_order_given() {
    let a = Interval::closed(0, 2);
    let b = Interval::open(2, 4);
    let c = Interval::closed(6, 6);
    let d = Interval::left_open(6, 8);
    let e = Interval::open(10, 12);
    let want = vec![Interval::right_open(0, 4), Interval::closed(6, 8), Interval::open(10, 12)];
    assert_eq!(Interval::normalize(vec![a, b, c, d, e]), want);
    assert_eq!(Interval::normalize(vec![e, d, c, b, a]), want);
    assert_eq!(Interval::normalize(vec![c, a, e, b, d]), want);
    assert_eq!(Interval::normalize(vec![d, d, a, e, c, b, a]), want);
}

#[test]
fn normalize_is_idempotent() {
    let given = vec![
        Interval::closed(5, 7),
        Interval::open(1, 3),
        Interval::right_open(3, 4),
        Interval::open(2, 2),
        Interval::closed(6, 9),
        Interval::open(9, 11),
        Interval::open(11, 12),
    ];
    let once = Interval::normalize(given);
    let twice = Interval::normalize(once.clone());
    assert_eq!(once, twice);
}

#[test]
fn normalize_output_is_sorted_and_apart() {
    let given = vec![
        Interval::closed(20, 22),
        Interval::open(1, 3),
        Interval::left_open(14, 15),
        Interval::right_open(3, 4),
        Interval::closed(6, 9),
        Interval::open(9, 11),
        Interval::open(11, 12),
        Interval::open(15, 15),
    ];
    let got = Interval::normalize(given);
    assert_eq!(got.len(), 5);
    for pair in got.windows(2) {
        assert!(pair[0].left_point() < pair[1].left_point());
        assert_eq!(pair[0].union(&pair[1]), None);
        assert_eq!(pair[0].intersect(&pair[1]), None);
    }
    for x in &got {
        assert!(!x.is_empty());
    }
}

#[test]
fn normalize_covers_the_same_points() {
    let given = vec![
        Interval::closed(20, 22),
        Interval::open(1, 3),
        Interval::left_open(14, 15),
        Interval::right_open(3, 4),
        Interval::closed(6, 9),
        Interval::open(9, 11),
        Interval::open(11, 12),
        Interval::open(15, 15),
    ];
    let got = Interval::normalize(given.clone());
    for p in -2..26 {
        let before = given.iter().any(|x| x.contains(&p));
        let after = got.iter().any(|x| x.contains(&p));
        assert_eq!(before, after);
    }
}

#[test]
fn normalize_of_many_intervals() {
    let mut given = Vec::new();
    for k in (0..200).rev() {
        given.push(Interval::right_open(3 * k, 3 * k + 2));
        given.push(Interval::closed(3 * k + 1, 3 * k + 1));
    }
    let got = Interval::normalize(given);
    assert_eq!(got.len(), 200);
    for (k, x) in got.iter().enumerate() {
        let k = k as i32;
        assert_eq!(*x, Interval::right_open(3 * k, 3 * k + 2));
    }
}

#[test]
fn normalize_of_floats() {
    let given = vec![Interval::open(1.0, 2.0), Interval::closed(0.5, 1.5), Interval::closed(2.5, 2.5)];
    assert_eq!(
        Interval::normalize(given),
        vec![Interval::right_open(0.5, 2.0), Interval::closed(2.5, 2.5)]
    );
}

#[test]
fn normalize_with_half_open_points() {
    // The open boundary of a half-open point is what gets joined.
    assert_eq!(
        Interval::normalize(vec![Interval::left_open(0, 0), Interval::open(0, 1)]),
        vec![Interval::open(0, 1)]
    );
    // Two open boundaries at one point leave no gap if a span holds the point.
    assert_eq!(
        Interval::normalize(vec![Interval::open(0, 1), Interval::right_open(0, 0)]),
        vec![Interval::right_open(0, 1)]
    );
    assert_eq!(
        Interval::normalize(vec![Interval::right_open(0, 0), Interval::left_open(0, 0)]),
        vec![Interval::closed(0, 0)]
    );
    assert_eq!(
        Interval::normalize(vec![Interval::left_open(0, 0), Interval::right_open(0, 0)]),
        vec![Interval::closed(0, 0)]
    );
}

#[test]
fn normalize_output_cannot_be_joined() {
    let mut given = Vec::new();
    for p in 0..4 {
        given.push(Interval::open(p, p + 1));
        given.push(Interval::left_open(p, p));
        given.push(Interval::right_open(p, p));
        given.push(Interval::open(p, p));
    }
    given.push(Interval::closed(7, 9));
    given.push(Interval::right_open(11, 11));
    given.push(Interval::open(11, 12));
    given.push(Interval::open(12, 13));
    let got = Interval::normalize(given);
    for (i, x) in got.iter().enumerate() {
        assert!(!x.is_empty());
        for (j, y) in got.iter().enumerate() {
            if i != j {
                assert_eq!(x.intersect(y), None);
                assert_eq!(x.union(y), None);
                for p in -1..15 {
                    assert!(!(x.contains(&p) && y.contains(&p)));
                }
            }
            if i < j {
                assert!(x.left_point() < y.left_point());
            }
        }
    }
    let again = Interval::normalize(got.clone());
    assert_eq!(again, got);
}
