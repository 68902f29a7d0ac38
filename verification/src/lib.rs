//! A bounded-interval algebra over any totally ordered point type.
//!
//! A [`Boundary`] is one endpoint, tagged as including or excluding its point.
//! An [`Interval`] is a pair of boundaries with the lesser point on the left.
//! Intervals support containment tests, intersection, union, difference,
//! convex hull, and the normalization of whole collections.
//!
//! Every executable function is specified against the mathematical model in
//! [`span`] and [`normal_form`], and the algebraic laws of that model are
//! proved in [`laws`] and [`normal_form`].
//!
//! The contracts come at two levels. For every point type whose comparisons
//! are functions of their arguments ([`order::obeys_order`]), each function
//! returns exactly what its model says. For every totally ordered point type
//! ([`order::is_total_order`], which [`order::lemma_lawful_ord_is_total`]
//! shows of the primitive integers), every interval is well-formed, the laws
//! hold, and normalization is defined.

pub mod order;
pub mod boundary;
pub mod span;
pub mod interval;
pub mod normal_form;
pub mod normalize;
pub mod laws;

pub use boundary::Boundary;
pub use interval::Interval;
pub use span::Span;
