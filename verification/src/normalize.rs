//! Normalization of a collection of intervals.

use vstd::prelude::*;
use vstd::relations::sorted_by;
use vstd::seq_lib::{lemma_multiset_commutative, lemma_sorted_unique};
use crate::interval::Interval;
use crate::normal_form::{
    all_non_empty, all_proper, all_wf, ascending, covered, lemma_normal_form_covers,
    lemma_normal_form_separated, lemma_span_order_total, merge_runs, non_empty, normal_form,
    pairwise_apart, separated, span_order,
};
use crate::order::{obeys_order, is_total_order};
use crate::span::Span;

verus! {

/// The models of a sequence of intervals, in the same order.
spec fn spans<T: PartialOrd + Copy>(s: Seq<Interval<T>>) -> Seq<Span<T>> {
    Seq::new(s.len(), |i: int| s[i]@)
}

/// Every span of `s` sorts before `x`.
spec fn all_before<T: PartialOrd + Copy>(s: Seq<Span<T>>, x: Span<T>) -> bool {
    forall|k: int| 0 <= k < s.len() ==> (#[trigger] s[k]).sorts_before(x)
}

/// The models of a sequence with one more interval.
proof fn lemma_spans_push<T: PartialOrd + Copy>(s: Seq<Interval<T>>, x: Interval<T>)
    ensures
        spans(s.push(x)) == spans(s).push(x@),
        spans(s.push(x)).to_multiset() == spans(s).to_multiset().insert(x@),
{
    assert(spans(s.push(x)) =~= spans(s).push(x@));
    vstd::seq_lib::to_multiset_build(spans(s), x@);
}

/// The models of a prefix of a sequence that is one interval longer.
proof fn lemma_spans_take_next<T: PartialOrd + Copy>(s: Seq<Interval<T>>, i: int)
    requires
        0 <= i < s.len(),
    ensures
        spans(s.take(i + 1)) == spans(s.take(i)).push(s[i]@),
        spans(s.take(i + 1)).to_multiset() == spans(s.take(i)).to_multiset().insert(s[i]@),
{
    vstd::seq_lib::to_multiset_build(spans(s.take(i)), s[i]@);
    assert(spans(s.take(i + 1)) =~= spans(s.take(i)).push(s[i]@));
}

/// A sorted sequence stays sorted when a span that sorts after all of it
/// is put at its end.
proof fn lemma_push_sorted<T: PartialOrd + Copy>(s: Seq<Span<T>>, x: Span<T>)
    requires
        sorted_by(s, span_order()),
        all_before(s, x),
    ensures
        sorted_by(s.push(x), span_order()),
{
    let r = span_order::<T>();
    let t = s.push(x);
    assert forall|k: int, l: int| 0 <= k < l < t.len() implies #[trigger] r(t[k], t[l]) by {
        if l < s.len() {
            assert(r(s[k], s[l]));
        } else {
            assert(s[k].sorts_before(x));
        }
    }
}

/// If `x` sorts before `y`, and every span of `s` sorts before one of the
/// two, then every span of `s` and `x` itself sort before `y`.
proof fn lemma_push_all_before<T: PartialOrd + Copy>(s: Seq<Span<T>>, x: Span<T>, y: Span<T>)
    requires
        is_total_order::<T>(),
        x.sorts_before(y),
        all_before(s, x) || all_before(s, y),
    ensures
        all_before(s.push(x), y),
{
    lemma_span_order_total::<T>();
    let r = span_order::<T>();
    let t = s.push(x);
    assert forall|k: int| 0 <= k < t.len() implies (#[trigger] t[k]).sorts_before(y) by {
        if k < s.len() {
            if all_before(s, x) {
                assert(r(s[k], x) && r(x, y));
            } else {
                assert(s[k].sorts_before(y));
            }
        }
    }
}

/// Returns whether `a` comes no later than `b` in the order of
/// normalization.
fn sorts_before<T: PartialOrd + Copy>(a: &Interval<T>, b: &Interval<T>) -> (r: bool)
    ensures
        obeys_order::<T>() ==> r == a@.sorts_before(b@),
{
    let al = a.left_bound();
    let bl = b.left_bound();
    let ar = a.right_bound();
    let br = b.right_bound();
    if al.value() < bl.value() || al.value() == bl.value() && al.is_closed() && bl.is_open() {
        true
    } else if al.agrees_with(&bl) {
        !(ar.value() > br.value() || ar.value() == br.value() && ar.is_closed() && br.is_open())
    } else {
        false
    }
}

/// Merges two sorted vectors into one sorted vector.
fn merge<T: PartialOrd + Copy>(a: &Vec<Interval<T>>, b: &Vec<Interval<T>>) -> (r: Vec<
    Interval<T>,
>)
    requires
        a.len() + b.len() <= usize::MAX,
    ensures
        r.len() == a.len() + b.len(),
        spans(r@).to_multiset() == spans(a@).to_multiset().add(spans(b@).to_multiset()),
        is_total_order::<T>() && sorted_by(spans(a@), span_order()) && sorted_by(
            spans(b@),
            span_order(),
        ) ==> sorted_by(spans(r@), span_order()),
{
    let ghost sorted_in = is_total_order::<T>() && sorted_by(spans(a@), span_order())
        && sorted_by(spans(b@), span_order());
    let mut out: Vec<Interval<T>> = Vec::new();
    let mut i: usize = 0;
    let mut j: usize = 0;
    proof {
        assert(spans(a@.take(0)) =~= Seq::<Span<T>>::empty());
        assert(spans(b@.take(0)) =~= Seq::<Span<T>>::empty());
        assert(spans(out@) =~= Seq::<Span<T>>::empty());
        assert(Seq::<Span<T>>::empty().to_multiset() =~= Seq::<Span<T>>::empty().to_multiset().add(
            Seq::<Span<T>>::empty().to_multiset(),
        )) by {
            broadcast use vstd::seq_lib::group_to_multiset_ensures;
            broadcast use vstd::multiset::group_multiset_axioms;

        }
    }
    while i < a.len() || j < b.len()
        invariant
            i <= a.len(),
            j <= b.len(),
            out.len() == i + j,
            a.len() + b.len() <= usize::MAX,
            sorted_in == (is_total_order::<T>() && sorted_by(spans(a@), span_order())
                && sorted_by(spans(b@), span_order())),
            spans(out@).to_multiset() == spans(a@.take(i as int)).to_multiset().add(
                spans(b@.take(j as int)).to_multiset(),
            ),
            // What has been merged is sorted and sorts before what has not.
            sorted_in ==> sorted_by(spans(out@), span_order()),
            sorted_in && i < a.len() ==> all_before(spans(out@), a@[i as int]@),
            sorted_in && j < b.len() ==> all_before(spans(out@), b@[j as int]@),
        decreases a.len() - i + (b.len() - j),
    {
        let from_a = if i >= a.len() {
            false
        } else if j >= b.len() {
            true
        } else {
            sorts_before(&a[i], &b[j])
        };
        let ghost merged = spans(out@);
        let ghost r = span_order::<T>();
        if from_a {
            let x = a[i];
            proof {
                lemma_spans_push(out@, x);
                lemma_spans_take_next(a@, i as int);
                assert(merged.to_multiset().insert(x@) =~= spans(
                    a@.take(i as int),
                ).to_multiset().insert(x@).add(spans(b@.take(j as int)).to_multiset())) by {
                    broadcast use vstd::multiset::group_multiset_axioms;

                }
                if sorted_in {
                    lemma_push_sorted(merged, x@);
                    if i + 1 < a.len() {
                        assert(r(spans(a@)[i as int], spans(a@)[i + 1]));
                        lemma_push_all_before(merged, x@, a@[i + 1]@);
                    }
                    if j < b.len() {
                        lemma_push_all_before(merged, x@, b@[j as int]@);
                    }
                }
            }
            out.push(x);
            i += 1;
        } else {
            let x = b[j];
            proof {
                lemma_spans_push(out@, x);
                lemma_spans_take_next(b@, j as int);
                assert(merged.to_multiset().insert(x@) =~= spans(a@.take(i as int)).to_multiset().add(
                    spans(b@.take(j as int)).to_multiset().insert(x@),
                )) by {
                    broadcast use vstd::multiset::group_multiset_axioms;

                }
                if sorted_in {
                    lemma_span_order_total::<T>();
                    lemma_push_sorted(merged, x@);
                    if j + 1 < b.len() {
                        assert(r(spans(b@)[j as int], spans(b@)[j + 1]));
                        lemma_push_all_before(merged, x@, b@[j + 1]@);
                    }
                    if i < a.len() {
                        assert(r(a@[i as int]@, x@) || r(x@, a@[i as int]@));
                        lemma_push_all_before(merged, x@, a@[i as int]@);
                    }
                }
            }
            out.push(x);
            j += 1;
        }
    }
    proof {
        assert(a@.take(a.len() as int) =~= a@);
        assert(b@.take(b.len() as int) =~= b@);
    }
    out
}

/// Sorts the intervals by [`Span::sorts_before`], by merging sorted halves.
fn sort<T: PartialOrd + Copy>(v: Vec<Interval<T>>) -> (r: Vec<Interval<T>>)
    ensures
        r.len() == v.len(),
        spans(r@).to_multiset() == spans(v@).to_multiset(),
        is_total_order::<T>() ==> sorted_by(spans(r@), span_order()),
    decreases v.len(),
{
    let n = v.len();
    if n <= 1 {
        return v;
    }
    let mut left = v;
    let right = left.split_off(n / 2);
    let ghost whole = spans(left@) + spans(right@);
    let left_sorted = sort(left);
    let right_sorted = sort(right);
    proof {
        assert(whole =~= spans(v@));
        lemma_multiset_commutative(spans(left@), spans(right@));
    }
    merge(&left_sorted, &right_sorted)
}

impl<T: PartialOrd + Copy> Interval<T> {
    /// Transforms a collection of intervals by combining any intervals that
    /// overlap or touch and removing any that are empty. The result is in
    /// ascending order, and no two of its intervals share a point, touch,
    /// or have a union.
    pub fn normalize(intervals: Vec<Self>) -> (r: Vec<Self>)
        ensures
            is_total_order::<T>() ==> r.deep_view() == normal_form(intervals.deep_view()),
            is_total_order::<T>() ==> all_wf(intervals.deep_view()) && all_wf(r.deep_view()),
            is_total_order::<T>() ==> all_non_empty(r.deep_view()),
            is_total_order::<T>() ==> separated(r.deep_view()) && ascending(r.deep_view()),
            is_total_order::<T>() ==> pairwise_apart(r.deep_view()),
            is_total_order::<T>() && all_proper(intervals.deep_view()) ==> covered(r.deep_view())
                == covered(intervals.deep_view()),
            is_total_order::<T>() && all_proper(intervals.deep_view()) ==> all_proper(
                r.deep_view(),
            ),
    {
        let ghost given = spans(intervals@);
        // Discard the empty intervals.
        let mut kept: Vec<Self> = Vec::new();
        let mut i: usize = 0;
        proof {
            assert(intervals.deep_view() =~= given);
            assert(spans(intervals@.take(0)) =~= Seq::<Span<T>>::empty());
            assert(spans(kept@) =~= Seq::<Span<T>>::empty());
            reveal(Seq::filter);
        }
        while i < intervals.len()
            invariant
                i <= intervals.len(),
                obeys_order::<T>() ==> spans(kept@) == spans(intervals@.take(i as int)).filter(
                    non_empty(),
                ),
                is_total_order::<T>() ==> all_wf(spans(intervals@.take(i as int))),
            decreases intervals.len() - i,
        {
            let x = intervals[i];
            proof {
                lemma_spans_take_next(intervals@, i as int);
                lemma_spans_push(kept@, x);
                spans(intervals@.take(i as int)).lemma_filter_push(x@, non_empty());
            }
            if !x.is_empty() {
                kept.push(x);
            }
            i += 1;
        }
        proof {
            assert(intervals@.take(intervals.len() as int) =~= intervals@);
        }
        // Sort what is left.
        let sorted = sort(kept);
        proof {
            if is_total_order::<T>() {
                lemma_span_order_total::<T>();
                given.filter(non_empty()).lemma_sort_by_ensures(span_order());
                lemma_sorted_unique(
                    spans(sorted@),
                    given.filter(non_empty()).sort_by(span_order()),
                    span_order(),
                );
                lemma_normal_form_separated(given);
                if all_proper(given) {
                    lemma_normal_form_covers(given);
                }
            }
        }
        // Join each run of intervals that touch or overlap.
        let mut out: Vec<Self> = Vec::new();
        if sorted.len() == 0 {
            proof {
                assert(spans(sorted@) =~= Seq::<Span<T>>::empty());
                assert(out.deep_view() =~= Seq::<Span<T>>::empty());
            }
            return out;
        }
        let mut acc = sorted[0];
        let mut j: usize = 1;
        proof {
            let one = spans(sorted@).take(1);
            assert(one.drop_last() =~= Seq::<Span<T>>::empty());
            assert(merge_runs(one.drop_last()) =~= Seq::<Span<T>>::empty());
            assert(spans(out@).push(acc@) =~= merge_runs(one));
        }
        while j < sorted.len()
            invariant
                1 <= j <= sorted.len(),
                obeys_order::<T>() ==> spans(out@).push(acc@) == merge_runs(
                    spans(sorted@).take(j as int),
                ),
            decreases sorted.len() - j,
        {
            let next = sorted[j];
            let ghost before = out@;
            let ghost held = acc@;
            proof {
                let upto = spans(sorted@).take(j + 1);
                assert(upto.drop_last() =~= spans(sorted@).take(j as int));
                assert(upto.last() == next@);
                assert(spans(before).push(held).drop_last() =~= spans(before));
                lemma_spans_push(before, acc);
            }
            match acc.union(&next) {
                Some(joined) => {
                    acc = joined;
                },
                None => {
                    out.push(acc);
                    acc = next;
                },
            }
            j += 1;
        }
        proof {
            assert(spans(sorted@).take(sorted.len() as int) =~= spans(sorted@));
            lemma_spans_push(out@, acc);
        }
        out.push(acc);
        proof {
            assert(out.deep_view() =~= spans(out@));
        }
        out
    }
}

} // verus!
