use intervals::Boundary;

#[test]
fn is_closed_tells_the_tag() {
    let b1 = Boundary::Include(0);
    let b2 = Boundary::Exclude(1);
    assert!(b1.is_closed());
    assert!(!b2.is_closed());
}

#[test]
fn is_open_tells_the_tag() {
    let b1 = Boundary::Include(0);
    let b2 = Boundary::Exclude(1);
    assert!(!b1.is_open());
    assert!(b2.is_open());
}

#[test]
fn deref_and_value_give_the_point() {
    assert_eq!(*Boundary::Include(7), 7);
    assert_eq!(*Boundary::Exclude(9), 9);
    assert_eq!(Boundary::Include(7).value(), 7);
    assert_eq!(Boundary::Exclude(9).value(), 9);
}

#[test]
fn boundary_combination_asymmetry() {
    let b1 = Boundary::Include(0);
    let b2 = Boundary::Exclude(0);
    assert_eq!(b1.intersect_or_least(&b2), Boundary::Exclude(0));
    assert_eq!(b1.union_or_least(&b2), Boundary::Include(0));
    assert_eq!(b1.intersect_or_greatest(&b2), b2);
    assert_eq!(b1.union_or_greatest(&b2), b1);
}

#[test]
fn combinators_at_one_point() {
    let i = Boundary::Include(4);
    let e = Boundary::Exclude(4);
    // Intersection includes the point only if both do.
    assert_eq!(i.intersect_or_least(&i), i);
    assert_eq!(i.intersect_or_least(&e), e);
    assert_eq!(e.intersect_or_least(&i), e);
    assert_eq!(e.intersect_or_least(&e), e);
    assert_eq!(i.intersect_or_greatest(&i), i);
    assert_eq!(i.intersect_or_greatest(&e), e);
    assert_eq!(e.intersect_or_greatest(&i), e);
    assert_eq!(e.intersect_or_greatest(&e), e);
    // Union includes it if either does.
    assert_eq!(i.union_or_least(&i), i);
    assert_eq!(i.union_or_least(&e), i);
    assert_eq!(e.union_or_least(&i), i);
    assert_eq!(e.union_or_least(&e), e);
    assert_eq!(i.union_or_greatest(&i), i);
    assert_eq!(i.union_or_greatest(&e), i);
    assert_eq!(e.union_or_greatest(&i), i);
    assert_eq!(e.union_or_greatest(&e), e);
}

#[test]
fn combinators_at_different_points_keep_the_tag() {
    let lo = Boundary::Exclude(1);
    let hi = Boundary::Include(5);
    assert_eq!(lo.intersect_or_least(&hi), lo);
    assert_eq!(hi.intersect_or_least(&lo), lo);
    assert_eq!(lo.intersect_or_greatest(&hi), hi);
    assert_eq!(hi.intersect_or_greatest(&lo), hi);
    assert_eq!(lo.union_or_least(&hi), lo);
    assert_eq!(hi.union_or_least(&lo), lo);
    assert_eq!(lo.union_or_greatest(&hi), hi);
    assert_eq!(hi.union_or_greatest(&lo), hi);
}

#[test]
fn boundaries_are_equal_only_with_point_and_tag() {
    assert_eq!(Boundary::Include(1), Boundary::Include(1));
    assert_ne!(Boundary::Include(1), Boundary::Exclude(1));
    assert_ne!(Boundary::Include(1), Boundary::Include(2));
    let b = Boundary::Exclude(3);
    let c = b;
    assert_eq!(b, c.clone());
}
