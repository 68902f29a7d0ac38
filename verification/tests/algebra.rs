use intervals::Interval;

fn all_kinds(a: i32, b: i32) -> [Interval<i32>; 4] {
    [Interval::open(a, b), Interval::closed(a, b), Interval::left_open(a, b), Interval::right_open(a, b)]
}

fn holds_in(got: Option<Interval<i32>>, p: i32) -> bool {
    match got {
        Some(i) => i.contains(&p),
        None => false,
    }
}

#[test]
fn intersect_with_itself_is_identity() {
    for (a, b) in [(1, 2), (0, 0), (-5, 9)] {
        for x in all_kinds(a, b) {
            if !x.is_empty() {
                assert_eq!(x.intersect(&x), Some(x));
            }
        }
    }
}

#[test]
fn intersect_with_empty_is_none() {
    let empty = Interval::open(3, 3);
    assert!(empty.is_empty());
    for x in all_kinds(1, 5) {
        assert_eq!(empty.intersect(&x), None);
        assert_eq!(x.intersect(&empty), None);
    }
    assert_eq!(empty.intersect(&empty), None);
}

#[test]
fn touching_intersection() {
    assert_eq!(Interval::right_open(1, 2).intersect(&Interval::right_open(2, 3)), None);
    assert_eq!(
        Interval::closed(1, 2).intersect(&Interval::closed(2, 3)),
        Some(Interval::closed(2, 2))
    );
    assert_eq!(Interval::closed(2, 3).intersect(&Interval::closed(1, 2)), Some(Interval::closed(2, 2)));
    assert_eq!(Interval::closed(1, 2).intersect(&Interval::left_open(2, 3)), None);
}

#[test]
fn intersect_of_closed_with_parts_of_itself() {
    assert_eq!(
        Interval::closed(1.0, 2.0).intersect(&Interval::open(1.0, 1.5)),
        Some(Interval::open(1.0, 1.5))
    );
    assert_eq!(
        Interval::closed(1.0, 2.0).intersect(&Interval::left_open(1.0, 1.5)),
        Some(Interval::left_open(1.0, 1.5))
    );
}

#[test]
fn intersect_contains_the_points_of_both() {
    for x in all_kinds(0, 6) {
        for y in all_kinds(3, 9) {
            let got = x.intersect(&y);
            for p in -1..11 {
                assert_eq!(holds_in(got, p), x.contains(&p) && y.contains(&p));
            }
        }
    }
}

#[test]
fn union_of_overlapping_intervals() {
    assert_eq!(Interval::closed(1, 4).union(&Interval::open(3, 8)), Some(Interval::right_open(1, 8)));
    assert_eq!(Interval::open(3, 8).union(&Interval::closed(1, 4)), Some(Interval::right_open(1, 8)));
    assert_eq!(Interval::open(1, 8).union(&Interval::closed(3, 4)), Some(Interval::open(1, 8)));
    assert_eq!(Interval::open(1, 4).union(&Interval::closed(1, 4)), Some(Interval::closed(1, 4)));
}

#[test]
fn union_of_touching_intervals_needs_one_closed_side() {
    assert_eq!(Interval::right_open(1, 2).union(&Interval::right_open(2, 3)), Some(Interval::right_open(1, 3)));
    assert_eq!(Interval::closed(1, 2).union(&Interval::open(2, 3)), Some(Interval::right_open(1, 3)));
    assert_eq!(Interval::closed(1, 2).union(&Interval::closed(2, 3)), Some(Interval::closed(1, 3)));
    assert_eq!(Interval::open(1, 2).union(&Interval::open(2, 3)), None);
    assert_eq!(Interval::open(2, 3).union(&Interval::open(1, 2)), None);
}

#[test]
fn union_of_intervals_apart_is_none() {
    assert_eq!(Interval::closed(1, 2).union(&Interval::closed(4, 5)), None);
    assert_eq!(Interval::closed(4, 5).union(&Interval::closed(1, 2)), None);
}

#[test]
fn union_with_empty_is_the_other() {
    let empty = Interval::open(7, 7);
    let other = Interval::open(0, 0);
    let x = Interval::left_open(1, 2);
    assert_eq!(x.union(&empty), Some(x));
    assert_eq!(empty.union(&x), Some(x));
    assert_eq!(empty.union(&other), Some(empty));
    assert_eq!(other.union(&empty), Some(other));
}

#[test]
fn union_contains_the_points_of_either() {
    for x in all_kinds(0, 6) {
        for y in all_kinds(3, 9) {
            let got = x.union(&y);
            assert!(got.is_some());
            for p in -1..11 {
                assert_eq!(holds_in(got, p), x.contains(&p) || y.contains(&p));
            }
        }
    }
}

#[test]
fn connect_spans_the_gap() {
    assert_eq!(Interval::closed(1, 2).connect(&Interval::open(5, 7)), Some(Interval::right_open(1, 7)));
    assert_eq!(Interval::open(5, 7).connect(&Interval::closed(1, 2)), Some(Interval::right_open(1, 7)));
    assert_eq!(Interval::open(1, 2).connect(&Interval::open(2, 3)), Some(Interval::open(1, 3)));
}

#[test]
fn connect_with_empty_operands() {
    let empty = Interval::open(7, 7);
    let other = Interval::open(0, 0);
    let x = Interval::left_open(1, 2);
    assert_eq!(x.connect(&empty), Some(x));
    assert_eq!(empty.connect(&x), Some(x));
    assert_eq!(empty.connect(&other), None);
    assert_eq!(empty.connect(&empty), None);
}

#[test]
fn union_where_defined_equals_connect() {
    for x in all_kinds(0, 4) {
        for (a, b) in [(2, 6), (4, 6), (5, 9), (-3, 0), (1, 1)] {
            for y in all_kinds(a, b) {
                if x.is_empty() && y.is_empty() {
                    continue;
                }
                match x.union(&y) {
                    Some(u) => assert_eq!(x.connect(&y), Some(u)),
                    None => {
                        let h = x.connect(&y).unwrap();
                        for p in -4..11 {
                            assert!(!x.contains(&p) || h.contains(&p));
                            assert!(!y.contains(&p) || h.contains(&p));
                        }
                    }
                }
            }
        }
    }
}

#[test]
fn connect_is_larger_than_operands_without_union() {
    let x = Interval::closed(0, 1);
    let y = Interval::closed(3, 4);
    assert_eq!(x.union(&y), None);
    let h = x.connect(&y).unwrap();
    assert_eq!(h, Interval::closed(0, 4));
    assert!(h.contains(&3) && !x.contains(&3));
    assert!(h.contains(&1) && !y.contains(&1));
}

#[test]
fn minus_cuts_one_end() {
    assert_eq!(Interval::closed(1, 5).minus(&Interval::closed(3, 7)), Some(Interval::right_open(1, 3)));
    assert_eq!(Interval::closed(1, 5).minus(&Interval::open(3, 7)), Some(Interval::closed(1, 3)));
    assert_eq!(Interval::closed(3, 7).minus(&Interval::closed(1, 5)), Some(Interval::left_open(5, 7)));
    assert_eq!(Interval::closed(3, 7).minus(&Interval::right_open(1, 5)), Some(Interval::closed(5, 7)));
    assert_eq!(Interval::closed(1, 5).minus(&Interval::left_open(1, 5)), Some(Interval::closed(1, 1)));
    assert_eq!(Interval::closed(1, 5).minus(&Interval::right_open(1, 5)), Some(Interval::closed(5, 5)));
}

#[test]
fn minus_of_intervals_apart_is_unchanged() {
    let x = Interval::closed(1, 2);
    assert_eq!(x.minus(&Interval::closed(4, 5)), Some(x));
    assert_eq!(x.minus(&Interval::closed(-4, 0)), Some(x));
    assert_eq!(x.minus(&Interval::open(2, 5)), Some(x));
    assert_eq!(x.minus(&Interval::open(3, 3)), Some(x));
    let empty = Interval::open(3, 3);
    assert_eq!(empty.minus(&x), Some(empty));
}

#[test]
fn minus_of_a_cover_is_empty() {
    let got = Interval::closed(2, 3).minus(&Interval::closed(1, 5)).unwrap();
    assert!(got.is_empty());
    assert_eq!(got, Interval::open(2, 2));
    let got = Interval::open(2, 3).minus(&Interval::open(2, 3)).unwrap();
    assert!(got.is_empty());
}

#[test]
fn minus_of_a_middle_part_is_none() {
    assert_eq!(Interval::closed(1, 9).minus(&Interval::closed(3, 4)), None);
    assert_eq!(Interval::closed(1, 9).minus(&Interval::open(1, 9)), None);
}

#[test]
fn minus_contains_the_points_of_the_first_only() {
    for x in all_kinds(0, 6) {
        for (a, b) in [(3, 9), (-2, 2), (-2, 9), (0, 6), (7, 9), (6, 8)] {
            for y in all_kinds(a, b) {
                if let Some(d) = x.minus(&y) {
                    for p in -3..11 {
                        assert_eq!(d.contains(&p), x.contains(&p) && !y.contains(&p));
                    }
                }
            }
        }
    }
}

#[test]
fn half_open_points_follow_their_boundaries() {
    // A half-open interval at one point contains the point...
    let point = Interval::left_open(1, 1);
    assert!(!point.is_empty());
    assert!(point.contains(&1));
    // ...but its open boundary is what the operations combine.
    assert_eq!(point.union(&Interval::open(1, 3)), Some(Interval::open(1, 3)));
    assert_eq!(Interval::open(1, 3).intersect(&Interval::closed(1, 1)), Some(Interval::left_open(1, 1)));
    assert_eq!(Interval::right_open(1, 1).intersect(&Interval::closed(1, 2)), None);
    assert_eq!(Interval::closed(1, 2).intersect(&Interval::right_open(1, 1)), Some(Interval::right_open(1, 1)));
    assert_eq!(point.connect(&Interval::closed(2, 3)), Some(Interval::left_open(1, 3)));
}

#[test]
fn set_operations_on_floats() {
    let a = Interval::closed(0.5, 1.5);
    let b = Interval::open(1.0, 2.0);
    assert_eq!(a.union(&b), Some(Interval::right_open(0.5, 2.0)));
    assert_eq!(a.connect(&b), Some(Interval::right_open(0.5, 2.0)));
    assert_eq!(a.minus(&b), Some(Interval::closed(0.5, 1.0)));
    assert_eq!(b.minus(&a), Some(Interval::open(1.5, 2.0)));
    assert_eq!(a.intersect(&b), Some(Interval::left_open(1.0, 1.5)));
}

#[test]
fn union_joins_what_shares_or_holds_the_touching_point() {
    let a = Interval::right_open(0, 0);
    let b = Interval::open(0, 1);
    assert_eq!(a.union(&b), Some(Interval::right_open(0, 1)));
    assert_eq!(b.union(&a), Some(Interval::right_open(0, 1)));
    assert_eq!(a.connect(&b), Some(Interval::right_open(0, 1)));
    let c = Interval::left_open(0, 0);
    assert_eq!(a.union(&c), Some(Interval::closed(0, 0)));
    assert_eq!(c.union(&a), Some(Interval::closed(0, 0)));
    assert_eq!(Interval::open(-1, 0).union(&c), Some(Interval::left_open(-1, 0)));
    // Without a span that holds the point, two open boundaries leave a gap.
    assert_eq!(Interval::open(-1, 0).union(&b), None);
}

#[test]
fn minus_of_a_half_open_point_inside_the_other_is_empty() {
    let a = Interval::right_open(0, 0);
    let got = a.minus(&Interval::closed(0, 1)).unwrap();
    assert!(got.is_empty());
    assert_eq!(a.minus(&Interval::open(0, 1)), Some(a));
}
