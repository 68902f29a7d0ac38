//! One endpoint of an interval.

use vstd::prelude::*;
use crate::order::{same, below, above, obeys_order};

verus! {

/// An endpoint of an interval: a point, and whether the interval includes it.
#[derive(Debug, PartialOrd, Ord, PartialEq, Eq, Hash, Copy)]
pub enum Boundary<T> {
    /// The boundary includes the point.
    Include(T),
    /// The boundary excludes the point.
    Exclude(T),
}

impl<T: Copy> Clone for Boundary<T> {
    fn clone(&self) -> (r: Self)
        ensures
            r == *self,
    {
        *self
    }
}

impl<T: PartialOrd + Copy> core::ops::Deref for Boundary<T> {
    type Target = T;

    /// Returns the point at which the boundary sits.
    fn deref(&self) -> (p: &T)
        ensures
            *p == self.point(),
    {
        match self {
            Boundary::Include(bound) => bound,
            Boundary::Exclude(bound) => bound,
        }
    }
}

impl<T: PartialOrd + Copy> Boundary<T> {
    /// The point at which the boundary sits.
    pub open spec fn point(self) -> T {
        match self {
            Boundary::Include(p) => p,
            Boundary::Exclude(p) => p,
        }
    }

    /// Whether the boundary includes its point.
    pub open spec fn closed(self) -> bool {
        self is Include
    }

    /// The boundary at `point` that includes it if `closed`, else excludes it.
    pub open spec fn at(point: T, closed: bool) -> Self {
        if closed {
            Boundary::Include(point)
        } else {
            Boundary::Exclude(point)
        }
    }

    /// The boundary at the same point with the opposite tag. Where one
    /// interval is cut away from another, what remains ends in the
    /// complement of the boundary that did the cutting.
    pub open spec fn complement(self) -> Self {
        Self::at(self.point(), !self.closed())
    }

    /// Two boundaries agree in tag and, as the point type compares, in point.
    pub open spec fn matches_with(self, other: Self) -> bool {
        self.closed() == other.closed() && same(self.point(), other.point())
    }

    /// The model of [`Boundary::intersect_or_least`]: at one point, included
    /// only if both include it; at different points, the lesser boundary.
    pub open spec fn spec_intersect_or_least(self, other: Self) -> Self {
        if same(self.point(), other.point()) {
            Self::at(self.point(), self.closed() && other.closed())
        } else if below(self.point(), other.point()) {
            self
        } else {
            other
        }
    }

    /// The model of [`Boundary::intersect_or_greatest`]: at one point,
    /// included only if both include it; at different points, the greater
    /// boundary.
    pub open spec fn spec_intersect_or_greatest(self, other: Self) -> Self {
        if same(self.point(), other.point()) {
            Self::at(self.point(), self.closed() && other.closed())
        } else if above(self.point(), other.point()) {
            self
        } else {
            other
        }
    }

    /// The model of [`Boundary::union_or_least`]: at one point, included if
    /// either includes it; at different points, the lesser boundary.
    pub open spec fn spec_union_or_least(self, other: Self) -> Self {
        if same(self.point(), other.point()) {
            Self::at(self.point(), self.closed() || other.closed())
        } else if below(self.point(), other.point()) {
            self
        } else {
            other
        }
    }

    /// The model of [`Boundary::union_or_greatest`]: at one point, included
    /// if either includes it; at different points, the greater boundary.
    pub open spec fn spec_union_or_greatest(self, other: Self) -> Self {
        if same(self.point(), other.point()) {
            Self::at(self.point(), self.closed() || other.closed())
        } else if above(self.point(), other.point()) {
            self
        } else {
            other
        }
    }

    /// Returns the point at which the boundary sits, whether or not the
    /// boundary includes it.
    pub fn value(&self) -> (p: T)
        ensures
            p == self.point(),
    {
        match self {
            Boundary::Include(p) => *p,
            Boundary::Exclude(p) => *p,
        }
    }

    /// Returns whether the boundary includes its point.
    pub fn is_closed(&self) -> (r: bool)
        ensures
            r == self.closed(),
    {
        match self {
            Boundary::Include(_) => true,
            Boundary::Exclude(_) => false,
        }
    }

    /// Returns whether the boundary excludes its point.
    pub fn is_open(&self) -> (r: bool)
        ensures
            r == !self.closed(),
    {
        !self.is_closed()
    }

    /// Returns the boundary with the opposite tag at the same point.
    pub(crate) fn flipped(&self) -> (r: Self)
        ensures
            r == self.complement(),
    {
        match self {
            Boundary::Include(p) => Boundary::Exclude(*p),
            Boundary::Exclude(p) => Boundary::Include(*p),
        }
    }

    /// Returns whether the two boundaries have the same tag and equal points.
    pub(crate) fn agrees_with(&self, other: &Self) -> (r: bool)
        ensures
            obeys_order::<T>() ==> r == self.matches_with(*other),
    {
        self.is_closed() == other.is_closed() && self.value() == other.value()
    }

    /// Returns the intersect of the given boundaries, or the lowest one if
    /// they are not at the same point.
    pub fn intersect_or_least(&self, other: &Self) -> (r: Self)
        ensures
            obeys_order::<T>() ==> r == self.spec_intersect_or_least(*other),
    {
        if self.value() == other.value() {
            if self.is_closed() && other.is_closed() {
                *self
            } else {
                Boundary::Exclude(self.value())
            }
        } else if self.value() < other.value() {
            *self
        } else {
            *other
        }
    }

    /// Returns the intersect of the given boundaries, or the greatest one if
    /// they are not at the same point.
    pub fn intersect_or_greatest(&self, other: &Self) -> (r: Self)
        ensures
            obeys_order::<T>() ==> r == self.spec_intersect_or_greatest(*other),
    {
        if self.value() == other.value() {
            if self.is_closed() && other.is_closed() {
                *self
            } else {
                Boundary::Exclude(self.value())
            }
        } else if self.value() > other.value() {
            *self
        } else {
            *other
        }
    }

    /// Returns the union of the given boundaries, or the lowest one if they
    /// are not at the same point.
    pub fn union_or_least(&self, other: &Self) -> (r: Self)
        ensures
            obeys_order::<T>() ==> r == self.spec_union_or_least(*other),
    {
        if self.value() == other.value() {
            if self.is_open() && other.is_open() {
                *self
            } else {
                Boundary::Include(self.value())
            }
        } else if self.value() < other.value() {
            *self
        } else {
            *other
        }
    }

    /// Returns the union of the given boundaries, or the greatest one if
    /// they are not at the same point.
    pub fn union_or_greatest(&self, other: &Self) -> (r: Self)
        ensures
            obeys_order::<T>() ==> r == self.spec_union_or_greatest(*other),
    {
        if self.value() == other.value() {
            if self.is_open() && other.is_open() {
                *self
            } else {
                Boundary::Include(self.value())
            }
        } else if self.value() > other.value() {
            *self
        } else {
            *other
        }
    }
}

} // verus!
