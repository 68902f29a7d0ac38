//! The mathematical model of an interval, and the set algebra on it.
//!
//! A [`Span`] is a pair of boundaries and nothing more. Every operation of
//! [`crate::Interval`] is specified as a function on spans.

use vstd::prelude::*;
use crate::boundary::Boundary;
use crate::order::{same, below, above, at_most};

verus! {

/// A left and a right boundary.
pub ghost struct Span<T> {
    pub left: Boundary<T>,
    pub right: Boundary<T>,
}

impl<T: PartialOrd + Copy> Span<T> {
    /// The span between two boundaries, the one with the lesser point on the
    /// left. Boundaries that are not out of order stay as given.
    pub open spec fn ordered(a: Boundary<T>, b: Boundary<T>) -> Self {
        if below(b.point(), a.point()) {
            Span { left: b, right: a }
        } else {
            Span { left: a, right: b }
        }
    }

    /// The span that [`crate::Interval::new`] builds: between `start` and
    /// `end` in order, or the single point `start` if there is no `end`.
    pub open spec fn of(start: Boundary<T>, end: Option<Boundary<T>>) -> Self {
        match end {
            Some(e) => Self::ordered(start, e),
            None => Span { left: start, right: start },
        }
    }

    /// The span with no points at `p`.
    pub open spec fn void_at(p: T) -> Self {
        Span { left: Boundary::Exclude(p), right: Boundary::Exclude(p) }
    }

    /// The left point is not greater than the right point.
    pub open spec fn wf(self) -> bool {
        at_most(self.left.point(), self.right.point())
    }

    /// Both boundaries sit at one point and both exclude it.
    pub open spec fn is_empty(self) -> bool {
        self.left.matches_with(self.right) && !self.left.closed()
    }

    /// A span at a single point is proper if its two tags agree: it is the
    /// closed point or the empty span. A half-open span at a single point
    /// contains that point although one of its boundaries excludes it.
    pub open spec fn is_proper(self) -> bool {
        same(self.left.point(), self.right.point()) ==> self.left.closed() == self.right.closed()
    }

    /// `p` lies strictly between the two points, or on a point whose
    /// boundary includes it.
    pub open spec fn contains(self, p: T) -> bool {
        ||| above(p, self.left.point()) && below(p, self.right.point())
        ||| same(p, self.left.point()) && self.left.closed()
        ||| same(p, self.right.point()) && self.right.closed()
    }

    /// The set of points that the span contains.
    pub open spec fn points(self) -> Set<T> {
        Set::new(|p: T| self.contains(p))
    }

    /// The two spans agree boundary by boundary.
    pub open spec fn matches_with(self, other: Self) -> bool {
        self.left.matches_with(other.left) && self.right.matches_with(other.right)
    }

    /// The left boundary tells the truth about the left point: it excludes
    /// the point only if the span does not contain it. This fails of a
    /// single point whose left boundary alone is open.
    pub open spec fn left_faithful(self) -> bool {
        self.contains(self.left.point()) ==> self.left.closed()
    }

    /// The right boundary tells the truth about the right point: it excludes
    /// the point only if the span does not contain it. This fails of a
    /// single point whose right boundary alone is open.
    pub open spec fn right_faithful(self) -> bool {
        self.contains(self.right.point()) ==> self.right.closed()
    }

    /// `self` ends before `other` starts and they share no point: the right
    /// point of `self` is less than the left point of `other`, or the two
    /// points coincide and one of the two spans does not contain it.
    pub open spec fn clear_of(self, other: Self) -> bool {
        ||| below(self.right.point(), other.left.point())
        ||| same(self.right.point(), other.left.point()) && !(self.contains(self.right.point())
            && other.contains(other.left.point()))
    }

    /// There is a gap between `self` and `other`: `self` lies before
    /// `other` and the two neither overlap nor touch. The right point of
    /// `self` is less than the left point of `other`, or the two points
    /// coincide, both boundaries exclude it and neither span contains it.
    pub open spec fn gap_before(self, other: Self) -> bool {
        ||| below(self.right.point(), other.left.point())
        ||| same(self.right.point(), other.left.point()) && !self.right.closed()
            && !other.left.closed() && !self.contains(self.right.point()) && !other.contains(
            other.left.point(),
        )
    }

    /// `self` reaches further left than `other`.
    pub open spec fn starts_before(self, other: Self) -> bool {
        ||| below(self.left.point(), other.left.point())
        ||| same(self.left.point(), other.left.point()) && self.left.closed()
            && !other.left.closed()
    }

    /// `self` reaches further right than `other`.
    pub open spec fn ends_after(self, other: Self) -> bool {
        ||| above(self.right.point(), other.right.point())
        ||| same(self.right.point(), other.right.point()) && self.right.closed()
            && !other.right.closed()
    }

    /// `self` reaches no further than `other` on either side.
    pub open spec fn within(self, other: Self) -> bool {
        !self.starts_before(other) && !self.ends_after(other)
    }

    /// The order in which normalization lines spans up: by left boundary,
    /// the lesser point first and at one point the closed boundary first;
    /// spans that start alike, by right boundary, the one that ends sooner
    /// first.
    pub open spec fn sorts_before(self, other: Self) -> bool {
        ||| self.starts_before(other)
        ||| self.left.matches_with(other.left) && !self.ends_after(other)
    }

    /// The set intersection, where it is not empty.
    ///
    /// An empty operand gives `None`. Matching operands give the first.
    /// Otherwise let `a` be the operand whose left point is not greater
    /// (the first on a tie) and `b` the other. If `a` ends before the left
    /// point of `b`, the result is `None`. If `a` ends on it, the result is
    /// that closed point where both boundaries include it and `None` where
    /// they do not. Otherwise the result runs from the greater of the left
    /// boundaries to the lesser of the right boundaries, a shared point being
    /// included only if both include it.
    pub open spec fn intersect(self, other: Self) -> Option<Self> {
        if self.is_empty() || other.is_empty() {
            None
        } else if self.matches_with(other) {
            Some(self)
        } else {
            let a = if at_most(self.left.point(), other.left.point()) { self } else { other };
            let b = if at_most(self.left.point(), other.left.point()) { other } else { self };
            if below(a.right.point(), b.left.point()) {
                None
            } else if same(a.right.point(), b.left.point()) {
                if a.right.closed() && b.left.closed() {
                    Some(Self::of(Boundary::Include(a.right.point()), None))
                } else {
                    None
                }
            } else {
                Some(
                    Self::ordered(
                        a.left.spec_intersect_or_greatest(b.left),
                        a.right.spec_intersect_or_least(b.right),
                    ),
                )
            }
        }
    }

    /// The smallest span that reaches as far left and as far right as either
    /// operand, a shared end point being included if either includes it.
    pub open spec fn hull(self, other: Self) -> Self {
        Self::ordered(
            self.left.spec_union_or_least(other.left),
            self.right.spec_union_or_greatest(other.right),
        )
    }

    /// The set union, where it is one span.
    ///
    /// If `other` is empty the result is `self`, and if only `self` is empty
    /// it is `other`. Two spans that are not empty have a union unless
    /// there is a gap between them, and where they have one it is their
    /// hull.
    pub open spec fn union(self, other: Self) -> Option<Self> {
        if other.is_empty() {
            Some(self)
        } else if self.is_empty() {
            Some(other)
        } else if self.gap_before(other) || other.gap_before(self) {
            None
        } else {
            Some(self.hull(other))
        }
    }

    /// The convex hull, where it is not empty.
    ///
    /// Two empty spans give `None`. If one operand is empty the result is
    /// the other. Otherwise it is the hull of the two, whether or not they
    /// meet.
    pub open spec fn connect(self, other: Self) -> Option<Self> {
        if self.is_empty() && other.is_empty() {
            None
        } else if other.is_empty() {
            Some(self)
        } else if self.is_empty() {
            Some(other)
        } else {
            Some(self.hull(other))
        }
    }

    /// The set difference `self` without `other`, where it is one span.
    ///
    /// If either operand is empty, or the two share no point, the result is
    /// `self`. If `other` leaves a part of `self` on both sides, the result
    /// is `None`. If it leaves a part on one side, that part is the result:
    /// it keeps the boundary of `self` on that side and ends in the
    /// complement of the boundary of `other` that cut it. If `other` leaves
    /// nothing, the result is the empty span at the left point of `self`.
    pub open spec fn minus(self, other: Self) -> Option<Self> {
        if self.is_empty() || other.is_empty() || self.clear_of(other) || other.clear_of(self) {
            Some(self)
        } else if self.starts_before(other) {
            if self.ends_after(other) {
                None
            } else {
                Some(Self::ordered(self.left, other.left.complement()))
            }
        } else if self.ends_after(other) {
            Some(Self::ordered(other.right.complement(), self.right))
        } else {
            Some(Self::void_at(self.left.point()))
        }
    }
}

} // verus!
