//! The vocabulary in which the library speaks about the order of a point type.
//!
//! Executable code compares points with `<`, `>`, `<=` and `==`. The functions
//! here name what those comparisons mean in specifications, and state the two
//! levels of good behaviour that the contracts of the library rely on.

use vstd::prelude::*;
use vstd::laws_cmp::obeys_cmp;
use vstd::laws_eq::obeys_concrete_eq;
use vstd::std_specs::cmp::{PartialEqSpec, PartialOrdSpec, OrdSpec};
use core::cmp::Ordering;

verus! {

/// `a == b` as the point type computes it.
pub open spec fn same<T: PartialOrd>(a: T, b: T) -> bool {
    a.eq_spec(&b)
}

/// `a < b` as the point type computes it.
pub open spec fn below<T: PartialOrd>(a: T, b: T) -> bool {
    a.partial_cmp_spec(&b) == Some(Ordering::Less)
}

/// `a > b` as the point type computes it.
pub open spec fn above<T: PartialOrd>(a: T, b: T) -> bool {
    a.partial_cmp_spec(&b) == Some(Ordering::Greater)
}

/// `a <= b` as the point type computes it.
pub open spec fn at_most<T: PartialOrd>(a: T, b: T) -> bool {
    a.partial_cmp_spec(&b) matches Some(Ordering::Less | Ordering::Equal)
}

/// The comparison operators of `T` are functions of their arguments: the same
/// two values always compare the same way, as their specifications say.
pub open spec fn obeys_order<T: PartialOrd>() -> bool {
    T::obeys_eq_spec() && T::obeys_partial_cmp_spec()
}

/// `T` is totally ordered: equality is identity, any two distinct points are
/// strictly ordered one way and not the other, and the strict order is
/// transitive. The derived comparisons `>` and `<=` agree with `<` and `==`.
pub open spec fn is_total_order<T: PartialOrd>() -> bool {
    &&& obeys_order::<T>()
    &&& forall|a: T, b: T| #[trigger] same(a, b) <==> a == b
    &&& forall|a: T, b: T| #[trigger] above(a, b) <==> below(b, a)
    &&& forall|a: T, b: T| #[trigger] at_most(a, b) <==> below(a, b) || a == b
    &&& forall|a: T, b: T| #[trigger] below(a, b) ==> a != b && !below(b, a)
    &&& forall|a: T, b: T| a != b ==> #[trigger] below(a, b) || below(b, a)
    &&& forall|a: T, b: T, c: T| #[trigger] below(a, b) && #[trigger] below(b, c) ==> below(a, c)
}

/// Every type whose `Ord` and `PartialEq` implementations follow the laws that
/// vstd states for them, and whose equality is identity, is totally ordered.
/// The primitive integer types are such types.
pub proof fn lemma_lawful_ord_is_total<T: Ord>()
    requires
        obeys_cmp::<T>(),
        obeys_concrete_eq::<T>(),
    ensures
        is_total_order::<T>(),
{
    reveal(vstd::laws_cmp::obeys_cmp_partial_ord);
    reveal(vstd::laws_cmp::obeys_cmp_ord);
    reveal(vstd::laws_cmp::obeys_partial_cmp_spec_properties);
    reveal(vstd::laws_eq::obeys_eq_spec_properties);
    reveal(vstd::laws_eq::obeys_concrete_eq);
    assert forall|a: T, b: T| a != b implies #[trigger] below(a, b) || below(b, a) by {
        assert(a.partial_cmp_spec(&b) == Some(a.cmp_spec(&b)));
        assert(b.partial_cmp_spec(&a) == Some(b.cmp_spec(&a)));
    }
    assert forall|a: T, b: T| #[trigger] below(a, b) implies a != b && !below(b, a) by {
        assert(a.partial_cmp_spec(&b) == Some(a.cmp_spec(&b)));
        assert(b.partial_cmp_spec(&a) == Some(b.cmp_spec(&a)));
    }
}

} // verus!
