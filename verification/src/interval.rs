//! Intervals and the set algebra on pairs of them.

use vstd::prelude::*;
use vstd::std_specs::ops::SubSpec;
use crate::boundary::Boundary;
use crate::laws::{
    lemma_connect_points, lemma_intersect_points, lemma_minus_points, lemma_union_points,
};
use crate::order::{at_most, obeys_order, is_total_order};
use crate::span::Span;

verus! {

/// A contiguous range of the type `T`, which may include or exclude either
/// boundary. The boundary with the lesser point is always on the left.
#[derive(Debug, PartialEq, Eq, Hash, Copy)]
pub struct Interval<T: PartialOrd + Copy> {
    /// The start of the range.
    start: Boundary<T>,
    /// The end of the range.
    end: Boundary<T>,
}

impl<T: PartialOrd + Copy> Clone for Interval<T> {
    fn clone(&self) -> (r: Self)
        ensures
            r == *self,
    {
        *self
    }
}

impl<T: PartialOrd + Copy> View for Interval<T> {
    type V = Span<T>;

    closed spec fn view(&self) -> Span<T> {
        Span { left: self.start, right: self.end }
    }
}

impl<T: PartialOrd + Copy> DeepView for Interval<T> {
    type V = Span<T>;

    open spec fn deep_view(&self) -> Span<T> {
        self@
    }
}

impl<T: PartialOrd + Copy> Interval<T> {
    /// Over a total order, the left point is never greater than the right
    /// point.
    #[verifier::type_invariant]
    spec fn in_order(self) -> bool {
        is_total_order::<T>() ==> at_most(self.start.point(), self.end.point())
    }

    /// Two intervals with the same model are the same interval.
    pub proof fn lemma_view_injective(self, other: Self)
        requires
            self@ == other@,
        ensures
            self == other,
    {
    }

    /// Creates a new interval from the given boundaries. If the arguments
    /// are out of order, they are swapped. Without an `end`, the interval is
    /// the single point `start`.
    pub fn new(start: Boundary<T>, end: Option<Boundary<T>>) -> (r: Self)
        ensures
            obeys_order::<T>() ==> r@ == Span::of(start, end),
            end is None ==> r@ == Span::of(start, None),
            is_total_order::<T>() ==> r@.wf(),
    {
        if let Some(end_bound) = end {
            if end_bound.value() < start.value() {
                Interval { start: end_bound, end: start }
            } else {
                Interval { start: start, end: end_bound }
            }
        } else {
            Interval { start: start, end: start }
        }
    }

    /// Creates a new open interval from the given values.
    pub fn open(start: T, end: T) -> (r: Self)
        ensures
            obeys_order::<T>() ==> r@ == Span::ordered(
                Boundary::Exclude(start),
                Boundary::Exclude(end),
            ),
            is_total_order::<T>() ==> r@.wf(),
    {
        Interval::new(Boundary::Exclude(start), Some(Boundary::Exclude(end)))
    }

    /// Creates a new closed interval from the given values.
    pub fn closed(start: T, end: T) -> (r: Self)
        ensures
            obeys_order::<T>() ==> r@ == Span::ordered(
                Boundary::Include(start),
                Boundary::Include(end),
            ),
            is_total_order::<T>() ==> r@.wf(),
    {
        Interval::new(Boundary::Include(start), Some(Boundary::Include(end)))
    }

    /// Creates a new left-open interval from the given values.
    pub fn left_open(start: T, end: T) -> (r: Self)
        ensures
            obeys_order::<T>() ==> r@ == Span::ordered(
                Boundary::Exclude(start),
                Boundary::Include(end),
            ),
            is_total_order::<T>() ==> r@.wf(),
    {
        Interval::new(Boundary::Exclude(start), Some(Boundary::Include(end)))
    }

    /// Creates a new right-open interval from the given values.
    pub fn right_open(start: T, end: T) -> (r: Self)
        ensures
            obeys_order::<T>() ==> r@ == Span::ordered(
                Boundary::Include(start),
                Boundary::Exclude(end),
            ),
            is_total_order::<T>() ==> r@.wf(),
    {
        Interval::new(Boundary::Include(start), Some(Boundary::Exclude(end)))
    }

    /// Returns the leftmost (least) boundary point of the interval. Note that
    /// this point may not be in the interval if the interval is left-open.
    pub fn left_point(&self) -> (p: T)
        ensures
            p == self@.left.point(),
            is_total_order::<T>() ==> self@.wf(),
    {
        proof {
            use_type_invariant(self);
        }
        self.start.value()
    }

    /// Returns the rightmost (greatest) boundary point of the interval. Note
    /// that this point may not be in the interval if the interval is
    /// right-open.
    pub fn right_point(&self) -> (p: T)
        ensures
            p == self@.right.point(),
            is_total_order::<T>() ==> self@.wf(),
    {
        proof {
            use_type_invariant(self);
        }
        self.end.value()
    }

    /// Returns the left (least) boundary of the interval.
    pub fn left_bound(&self) -> (b: Boundary<T>)
        ensures
            b == self@.left,
            is_total_order::<T>() ==> self@.wf(),
    {
        proof {
            use_type_invariant(self);
        }
        self.start
    }

    /// Returns the right (greatest) boundary of the interval.
    pub fn right_bound(&self) -> (b: Boundary<T>)
        ensures
            b == self@.right,
            is_total_order::<T>() ==> self@.wf(),
    {
        proof {
            use_type_invariant(self);
        }
        self.end
    }

    /// Returns whether the interval is empty: whether both boundaries sit at
    /// one point and both exclude it.
    pub fn is_empty(&self) -> (r: bool)
        ensures
            obeys_order::<T>() ==> r == self@.is_empty(),
            is_total_order::<T>() ==> self@.wf(),
    {
        proof {
            use_type_invariant(self);
        }
        self.start.agrees_with(&self.end) && self.start.is_open()
    }

    /// Returns whether the given point is included in the interval.
    pub fn contains(&self, point: &T) -> (r: bool)
        ensures
            obeys_order::<T>() ==> r == self@.contains(*point),
    {
        let p = *point;
        let l = self.start.value();
        let r = self.end.value();
        p > l && p < r || p == l && self.start.is_closed() || p == r && self.end.is_closed()
    }

    /// Returns whether the two intervals agree boundary by boundary.
    fn agrees_with(&self, other: &Self) -> (r: bool)
        ensures
            obeys_order::<T>() ==> r == self@.matches_with(other@),
    {
        self.start.agrees_with(&other.start) && self.end.agrees_with(&other.end)
    }

    /// Returns whether `self` ends before `other` starts with no point in
    /// common.
    fn is_clear_of(&self, other: &Self) -> (r: bool)
        ensures
            obeys_order::<T>() ==> r == self@.clear_of(other@),
    {
        let e = self.end.value();
        let s = other.start.value();
        e < s || e == s && !(self.contains(&e) && other.contains(&s))
    }

    /// Returns whether there is a gap between `self` and `other` that
    /// follows it.
    fn has_gap_before(&self, other: &Self) -> (r: bool)
        ensures
            obeys_order::<T>() ==> r == self@.gap_before(other@),
    {
        let e = self.end.value();
        let s = other.start.value();
        e < s || e == s && self.end.is_open() && other.start.is_open() && !self.contains(&e)
            && !other.contains(&s)
    }

    /// Returns the smallest interval that reaches as far as either operand.
    fn hull(&self, other: &Self) -> (r: Self)
        ensures
            obeys_order::<T>() ==> r@ == self@.hull(other@),
            is_total_order::<T>() ==> r@.wf(),
    {
        Interval::new(
            self.start.union_or_least(&other.start),
            Some(self.end.union_or_greatest(&other.end)),
        )
    }

    /// Returns the set union of the interval with the given interval. Note
    /// that since an interval requires contiguous points, a union of
    /// intervals with a gap between them will fail to produce an interval
    /// and `None` will be returned.
    pub fn union(&self, other: &Self) -> (r: Option<Self>)
        ensures
            obeys_order::<T>() ==> r.deep_view() == self@.union(other@),
            is_total_order::<T>() ==> self@.wf() && other@.wf() && (r is Some ==> r.unwrap()@.wf()),
            is_total_order::<T>() && self@.is_proper() && other@.is_proper() && r is Some
                ==> r.unwrap()@.points() == self@.points().union(other@.points()),
    {
        proof {
            use_type_invariant(self);
            use_type_invariant(other);
            if is_total_order::<T>() && self@.is_proper() && other@.is_proper() {
                lemma_union_points(self@, other@);
            }
        }
        if other.is_empty() {
            Some(*self)
        } else if self.is_empty() {
            Some(*other)
        } else if self.has_gap_before(other) || other.has_gap_before(self) {
            None
        } else {
            Some(self.hull(other))
        }
    }

    /// Returns the set intersection of the interval with the given interval,
    /// or `None` if the intervals do not overlap.
    pub fn intersect(&self, other: &Self) -> (r: Option<Self>)
        ensures
            obeys_order::<T>() ==> r.deep_view() == self@.intersect(other@),
            obeys_order::<T>() && (self@.is_empty() || other@.is_empty()) ==> r is None,
            is_total_order::<T>() && !self@.is_empty() && self@ == other@ ==> r == Some(*self),
            is_total_order::<T>() ==> self@.wf() && other@.wf() && (r is Some ==> r.unwrap()@.wf()),
            is_total_order::<T>() && self@.is_proper() && other@.is_proper() && r is None
                ==> self@.points().intersect(other@.points()) == Set::<T>::empty(),
            is_total_order::<T>() && self@.is_proper() && other@.is_proper() && r is Some
                && r.unwrap()@.is_proper() ==> r.unwrap()@.points() == self@.points().intersect(
                other@.points(),
            ),
    {
        proof {
            use_type_invariant(self);
            use_type_invariant(other);
            if is_total_order::<T>() && self@.is_proper() && other@.is_proper() {
                lemma_intersect_points(self@, other@);
            }
        }
        // Check if either one is empty.
        if self.is_empty() || other.is_empty() {
            return None;
        }
        // Check if they're the same set.
        if self.agrees_with(other) {
            return Some(*self);
        }
        let (a, b) = if self.left_point() <= other.left_point() {
            (self, other)
        } else {
            (other, self)
        };
        if a.right_point() < b.left_point() {
            None
        } else if a.right_point() == b.left_point() {
            if a.right_bound().is_closed() && b.left_bound().is_closed() {
                Some(Interval::new(Boundary::Include(a.right_point()), None))
            } else {
                None
            }
        } else {
            Some(
                Interval::new(
                    a.left_bound().intersect_or_greatest(&b.left_bound()),
                    Some(a.right_bound().intersect_or_least(&b.right_bound())),
                ),
            )
        }
    }

    /// Returns the interval with all the points in the intersection with the
    /// given interval removed, or `None` if what remains is not one
    /// interval.
    pub fn minus(&self, other: &Self) -> (r: Option<Self>)
        ensures
            obeys_order::<T>() ==> r.deep_view() == self@.minus(other@),
            is_total_order::<T>() ==> self@.wf() && other@.wf() && (r is Some ==> r.unwrap()@.wf()),
            is_total_order::<T>() && self@.is_proper() && other@.is_proper() && r is Some
                ==> r.unwrap()@.points() == self@.points().difference(other@.points()),
    {
        proof {
            use_type_invariant(self);
            use_type_invariant(other);
            if is_total_order::<T>() && self@.is_proper() && other@.is_proper() {
                lemma_minus_points(self@, other@);
            }
        }
        if self.is_empty() || other.is_empty() || self.is_clear_of(other) || other.is_clear_of(
            self,
        ) {
            return Some(*self);
        }
        let sl = self.start.value();
        let ol = other.start.value();
        let sr = self.end.value();
        let or = other.end.value();
        let left_rest = sl < ol || sl == ol && self.start.is_closed() && other.start.is_open();
        let right_rest = sr > or || sr == or && self.end.is_closed() && other.end.is_open();
        if left_rest {
            if right_rest {
                None
            } else {
                Some(Interval::new(self.start, Some(other.start.flipped())))
            }
        } else if right_rest {
            Some(Interval::new(other.end.flipped(), Some(self.end)))
        } else {
            Some(Interval::open(sl, sl))
        }
    }

    /// Returns the smallest interval containing both of the given intervals,
    /// or `None` if both are empty.
    pub fn connect(&self, other: &Self) -> (r: Option<Self>)
        ensures
            obeys_order::<T>() ==> r.deep_view() == self@.connect(other@),
            is_total_order::<T>() ==> self@.wf() && other@.wf() && (r is Some ==> r.unwrap()@.wf()),
            is_total_order::<T>() && self@.is_proper() && other@.is_proper() && r is Some
                ==> self@.points().union(other@.points()).subset_of(r.unwrap()@.points()),
    {
        proof {
            use_type_invariant(self);
            use_type_invariant(other);
            if is_total_order::<T>() && self@.is_proper() && other@.is_proper() {
                lemma_connect_points(self@, other@);
            }
        }
        let self_empty = self.is_empty();
        let other_empty = other.is_empty();
        if self_empty && other_empty {
            None
        } else if other_empty {
            Some(*self)
        } else if self_empty {
            Some(*other)
        } else {
            Some(self.hull(other))
        }
    }
}

impl<T: PartialOrd + Copy + core::ops::Sub> Interval<T> {
    /// Returns the width of the interval: the right point minus the left
    /// point, whatever the tags of the boundaries. The point type must be
    /// able to subtract the two: with integers, the difference must fit.
    pub fn width(&self) -> (w: T::Output) where T::Output: Default
        requires
            self@.right.point().sub_req(self@.left.point()),
        ensures
            T::obeys_sub_spec() ==> w == self@.right.point().sub_spec(self@.left.point()),
    {
        self.end.value() - self.start.value()
    }
}

} // verus!
