//! The laws of the algebra on pairs of intervals, proved of the model.
//!
//! Every law here speaks of [`Span`], the model in which the contracts of
//! [`crate::Interval`] are written, so each one holds of the intervals that
//! the executable functions return. The laws of normalization are in
//! [`crate::normal_form`].

use vstd::prelude::*;
use crate::boundary::Boundary;
use crate::order::{at_most, is_total_order};
use crate::span::Span;

verus! {

/// Building an interval from two boundaries gives the same interval in
/// whichever order they are passed, provided they sit at different points
/// or are the same boundary. (Two different boundaries at one point cannot
/// be put in order by their points, so each stays where it was passed.)
pub proof fn lemma_new_swap<T: PartialOrd + Copy>(l: Boundary<T>, r: Boundary<T>)
    requires
        is_total_order::<T>(),
        l.point() != r.point() || l == r,
    ensures
        Span::of(l, Some(r)) == Span::of(r, Some(l)),
        Span::of(l, Some(r)).wf(),
{
}

/// Over a total order, two boundaries put in order make a well-formed span,
/// and boundaries that are in order already stay where they are.
pub proof fn lemma_ordered_wf<T: PartialOrd + Copy>(a: Boundary<T>, b: Boundary<T>)
    requires
        is_total_order::<T>(),
    ensures
        Span::ordered(a, b).wf(),
        at_most(a.point(), b.point()) ==> Span::ordered(a, b) == (Span { left: a, right: b }),
        Span::of(a, Some(b)).wf(),
        Span::of(a, None).wf(),
{
}

/// Over a total order, the set operations make well-formed spans of
/// well-formed spans.
pub proof fn lemma_operations_keep_wf<T: PartialOrd + Copy>(a: Span<T>, b: Span<T>)
    requires
        is_total_order::<T>(),
        a.wf(),
        b.wf(),
    ensures
        a.hull(b).wf(),
        a.intersect(b) matches Some(r) ==> r.wf(),
        a.union(b) matches Some(r) ==> r.wf(),
        a.connect(b) matches Some(r) ==> r.wf(),
        a.minus(b) matches Some(r) ==> r.wf(),
{
}

/// An interval between a point and itself is empty if both boundaries
/// exclude the point, and not empty if either includes it.
pub proof fn lemma_emptiness<T: PartialOrd + Copy>(x: T)
    requires
        is_total_order::<T>(),
    ensures
        Span::ordered(Boundary::Exclude(x), Boundary::Exclude(x)).is_empty(),
        !Span::ordered(Boundary::Exclude(x), Boundary::Include(x)).is_empty(),
        !Span::ordered(Boundary::Include(x), Boundary::Exclude(x)).is_empty(),
        !Span::ordered(Boundary::Include(x), Boundary::Include(x)).is_empty(),
        Span::of(Boundary::Exclude(x), None).is_empty(),
        !Span::of(Boundary::Include(x), None).is_empty(),
{
}

/// A well-formed span is proper exactly if both of its boundaries tell the
/// truth about their points.
pub proof fn lemma_proper_is_faithful<T: PartialOrd + Copy>(a: Span<T>)
    requires
        is_total_order::<T>(),
        a.wf(),
    ensures
        a.is_proper() <==> a.left_faithful() && a.right_faithful(),
{
}

/// An empty span contains no point.
pub proof fn lemma_empty_contains_nothing<T: PartialOrd + Copy>(a: Span<T>)
    requires
        is_total_order::<T>(),
        a.is_empty(),
    ensures
        a.points() == Set::<T>::empty(),
{
    assert(a.points() =~= Set::<T>::empty());
}

/// The intersection of a span that is not empty with itself is that span.
pub proof fn lemma_intersect_self<T: PartialOrd + Copy>(a: Span<T>)
    requires
        is_total_order::<T>(),
        !a.is_empty(),
    ensures
        a.intersect(a) == Some(a),
{
}

/// An empty span has no intersection with any span, on either side.
pub proof fn lemma_intersect_empty<T: PartialOrd + Copy>(a: Span<T>, b: Span<T>)
    requires
        a.is_empty(),
    ensures
        a.intersect(b) is None,
        b.intersect(a) is None,
{
}

/// Where two proper spans have no intersection they share no point, and
/// where they have a proper one it contains exactly the points that both
/// contain.
pub proof fn lemma_intersect_points<T: PartialOrd + Copy>(a: Span<T>, b: Span<T>)
    requires
        is_total_order::<T>(),
        a.wf(),
        b.wf(),
        a.is_proper(),
        b.is_proper(),
    ensures
        a.intersect(b) is None ==> a.points().intersect(b.points()) == Set::<T>::empty(),
        a.intersect(b) matches Some(r) ==> (r.is_proper() ==> r.points() == a.points().intersect(
            b.points(),
        )),
{
    match a.intersect(b) {
        None => {
            assert(a.points().intersect(b.points()) =~= Set::<T>::empty());
        },
        Some(r) => {
            if r.is_proper() {
                assert(r.points() =~= a.points().intersect(b.points()));
            }
        },
    }
}

/// Two spans that are not both empty and have a union have that union as
/// their convex hull.
pub proof fn lemma_union_is_connect<T: PartialOrd + Copy>(a: Span<T>, b: Span<T>)
    requires
        !(a.is_empty() && b.is_empty()),
        a.union(b) is Some,
    ensures
        a.connect(b) == a.union(b),
{
}

/// The convex hull of two proper spans is proper and contains every point
/// of either.
pub proof fn lemma_connect_points<T: PartialOrd + Copy>(a: Span<T>, b: Span<T>)
    requires
        is_total_order::<T>(),
        a.wf(),
        b.wf(),
        a.is_proper(),
        b.is_proper(),
    ensures
        a.connect(b) is None ==> a.points().union(b.points()) == Set::<T>::empty(),
        a.connect(b) matches Some(h) ==> h.is_proper() && h.wf() && a.points().union(
            b.points(),
        ).subset_of(h.points()),
{
    lemma_operations_keep_wf(a, b);
    if a.connect(b) is None {
        assert(a.points().union(b.points()) =~= Set::<T>::empty());
    }
}

/// The hull of two spans is the smallest span that reaches as far as both:
/// each of the two is within it, and it is within every span that each of
/// the two is within.
pub proof fn lemma_hull_is_least<T: PartialOrd + Copy>(a: Span<T>, b: Span<T>, c: Span<T>)
    requires
        is_total_order::<T>(),
        a.wf(),
        b.wf(),
    ensures
        a.within(a.hull(b)),
        b.within(a.hull(b)),
        a.within(c) && b.within(c) ==> a.hull(b).within(c),
{
}

/// Two spans without a union still have a convex hull.
pub proof fn lemma_connect_defined<T: PartialOrd + Copy>(a: Span<T>, b: Span<T>)
    requires
        a.union(b) is None,
    ensures
        a.connect(b) is Some,
{
}

/// The convex hull of two spans without a union contains every point of
/// either, and a point that the one lacks as well as a point that the
/// other lacks, provided the two boundaries that become the boundaries of
/// the hull tell the truth about their points: the span that comes first is
/// not a single point with its left boundary alone open, and the span that
/// comes last is not a single point with its right boundary alone open.
pub proof fn lemma_connect_exceeds<T: PartialOrd + Copy>(a: Span<T>, b: Span<T>)
    requires
        is_total_order::<T>(),
        a.wf(),
        b.wf(),
        a.union(b) is None,
        a.gap_before(b) ==> a.left_faithful() && b.right_faithful(),
        b.gap_before(a) ==> b.left_faithful() && a.right_faithful(),
    ensures
        a.connect(b) is Some,
        a.points().subset_of(a.connect(b).unwrap().points()),
        b.points().subset_of(a.connect(b).unwrap().points()),
        a.points() != a.connect(b).unwrap().points(),
        b.points() != a.connect(b).unwrap().points(),
{
    let h = a.connect(b).unwrap();
    let lo = if a.gap_before(b) { a } else { b };
    let hi = if a.gap_before(b) { b } else { a };
    assert(lo.gap_before(hi));
    assert(h.left == lo.left);
    assert(h.right == hi.right);
    // The point where the later span starts is in the hull and not in the
    // earlier span; the point where the earlier span ends is in the hull and
    // not in the later span.
    let n = hi.left.point();
    let m = lo.right.point();
    assert(h.contains(n) && !lo.contains(n));
    assert(h.contains(m) && !hi.contains(m));
    assert(h.points().contains(n) && !lo.points().contains(n));
    assert(h.points().contains(m) && !hi.points().contains(m));
}

/// The union of two proper spans contains exactly the points of both, and
/// is proper.
pub proof fn lemma_union_points<T: PartialOrd + Copy>(a: Span<T>, b: Span<T>)
    requires
        is_total_order::<T>(),
        a.wf(),
        b.wf(),
        a.is_proper(),
        b.is_proper(),
    ensures
        a.union(b) matches Some(u) ==> u.is_proper() && u.wf() && u.points() == a.points().union(
            b.points(),
        ),
{
    if let Some(u) = a.union(b) {
        lemma_operations_keep_wf(a, b);
        assert(u.points() =~= a.points().union(b.points()));
    }
}

/// The difference of two proper spans contains exactly the points of the
/// first that the second does not contain, and is proper.
pub proof fn lemma_minus_points<T: PartialOrd + Copy>(a: Span<T>, b: Span<T>)
    requires
        is_total_order::<T>(),
        a.wf(),
        b.wf(),
        a.is_proper(),
        b.is_proper(),
    ensures
        a.minus(b) matches Some(d) ==> d.is_proper() && d.wf() && d.points()
            == a.points().difference(b.points()),
{
    if let Some(d) = a.minus(b) {
        lemma_operations_keep_wf(a, b);
        assert(d.points() =~= a.points().difference(b.points()));
    }
}

} // verus!
