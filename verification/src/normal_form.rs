//! The normal form of a collection of spans, and its laws.
//!
//! [`normal_form`] is the model of [`crate::Interval::normalize`]. The laws
//! at the end of this module say what makes it a normal form: it is sorted,
//! no two of its spans touch or overlap, it covers the points that were
//! covered, it is its own normal form, and it does not depend on the order
//! in which the spans were given.

use vstd::prelude::*;
use vstd::relations::{sorted_by, total_ordering};
use vstd::seq_lib::lemma_sorted_unique;
use crate::laws::{lemma_operations_keep_wf, lemma_union_points};
use crate::order::{below, is_total_order};
use crate::span::Span;

verus! {

/// The relation [`Span::sorts_before`] as a value.
pub open spec fn span_order<T: PartialOrd + Copy>() -> spec_fn(Span<T>, Span<T>) -> bool {
    |a: Span<T>, b: Span<T>| a.sorts_before(b)
}

/// The predicate "is not empty" as a value.
pub open spec fn non_empty<T: PartialOrd + Copy>() -> spec_fn(Span<T>) -> bool {
    |a: Span<T>| !a.is_empty()
}

/// One pass from left to right over `s` that joins each span to the one
/// before it wherever the two have a union.
pub open spec fn merge_runs<T: PartialOrd + Copy>(s: Seq<Span<T>>) -> Seq<Span<T>>
    decreases s.len(),
{
    if s.len() == 0 {
        Seq::empty()
    } else {
        let done = merge_runs(s.drop_last());
        if done.len() > 0 && done.last().union(s.last()) is Some {
            done.drop_last().push(done.last().union(s.last()).unwrap())
        } else {
            done.push(s.last())
        }
    }
}

/// The normal form of a collection of spans: the empty ones dropped, the
/// rest sorted and each run of spans that touch or overlap joined into one.
pub open spec fn normal_form<T: PartialOrd + Copy>(xs: Seq<Span<T>>) -> Seq<Span<T>> {
    merge_runs(xs.filter(non_empty()).sort_by(span_order()))
}

/// Every span of the sequence is well-formed.
pub open spec fn all_wf<T: PartialOrd + Copy>(s: Seq<Span<T>>) -> bool {
    forall|i: int| 0 <= i < s.len() ==> (#[trigger] s[i]).wf()
}

/// Every span of the sequence is proper.
pub open spec fn all_proper<T: PartialOrd + Copy>(s: Seq<Span<T>>) -> bool {
    forall|i: int| 0 <= i < s.len() ==> (#[trigger] s[i]).is_proper()
}

/// No span of the sequence is empty.
pub open spec fn all_non_empty<T: PartialOrd + Copy>(s: Seq<Span<T>>) -> bool {
    forall|i: int| 0 <= i < s.len() ==> !(#[trigger] s[i]).is_empty()
}

/// Each span of the sequence has a gap before every later one: no two
/// touch or overlap.
pub open spec fn separated<T: PartialOrd + Copy>(s: Seq<Span<T>>) -> bool {
    forall|i: int, j: int| 0 <= i < j < s.len() ==> (#[trigger] s[i]).gap_before(#[trigger] s[j])
}

/// The left points of the sequence ascend.
pub open spec fn ascending<T: PartialOrd + Copy>(s: Seq<Span<T>>) -> bool {
    forall|i: int, j: int|
        0 <= i < j < s.len() ==> below(
            (#[trigger] s[i]).left.point(),
            (#[trigger] s[j]).left.point(),
        )
}

/// No two spans of the sequence could be joined into one: any two of them
/// share no point, have no intersection and have no union.
pub open spec fn pairwise_apart<T: PartialOrd + Copy>(s: Seq<Span<T>>) -> bool {
    forall|i: int, j: int|
        0 <= i < s.len() && 0 <= j < s.len() && i != j ==> {
            &&& (#[trigger] s[i]).points().disjoint((#[trigger] s[j]).points())
            &&& s[i].intersect(s[j]) is None
            &&& s[i].union(s[j]) is None
        }
}

/// The set of points that some span of the sequence contains.
pub open spec fn covered<T: PartialOrd + Copy>(s: Seq<Span<T>>) -> Set<T> {
    Set::new(|p: T| exists|i: int| 0 <= i < s.len() && (#[trigger] s[i]).contains(p))
}

/// Over a total order of points, [`Span::sorts_before`] is a total order of
/// spans.
pub proof fn lemma_span_order_total<T: PartialOrd + Copy>()
    requires
        is_total_order::<T>(),
    ensures
        total_ordering(span_order::<T>()),
{
    let r = span_order::<T>();
    assert forall|a: Span<T>, b: Span<T>| #[trigger] r(a, b) && #[trigger] r(b, a) implies a
        == b by {
        assert(a.left == b.left);
        assert(a.right == b.right);
    }
    assert forall|a: Span<T>, b: Span<T>, c: Span<T>| #[trigger] r(a, b) && #[trigger] r(
        b,
        c,
    ) implies r(a, c) by {
        assert(a.sorts_before(b) && b.sorts_before(c));
    }
    assert forall|a: Span<T>, b: Span<T>| #[trigger] r(a, b) || #[trigger] r(b, a) by {
        assert(a.sorts_before(b) || b.sorts_before(a));
    }
    assert forall|a: Span<T>| #[trigger] r(a, a) by {
        assert(a.sorts_before(a));
    }
}

/// Each span of the sequence has a gap before the next one.
spec fn stepwise_separated<T: PartialOrd + Copy>(s: Seq<Span<T>>) -> bool {
    forall|k: int| 0 <= k && k + 1 < s.len() ==> (#[trigger] s[k]).gap_before(s[k + 1])
}

/// What joining a span to the one that normalization holds does: where the
/// two have no union the first has a gap before the second, and where they
/// have one it starts where the first did.
proof fn lemma_join<T: PartialOrd + Copy>(acc: Span<T>, x: Span<T>)
    requires
        is_total_order::<T>(),
        acc.wf(),
        x.wf(),
        !acc.is_empty(),
        !x.is_empty(),
        !x.starts_before(acc),
    ensures
        acc.union(x) is None ==> acc.gap_before(x),
        acc.union(x) matches Some(u) ==> u.wf() && !u.is_empty() && u.left == acc.left && (
        acc.is_proper() && x.is_proper() ==> u.is_proper() && u.points() == acc.points().union(
            x.points(),
        )),
{
    if let Some(u) = acc.union(x) {
        lemma_operations_keep_wf(acc, x);
        if acc.is_proper() && x.is_proper() {
            lemma_union_points(acc, x);
        }
    }
}

/// The points covered by a sequence with one more span are those covered
/// before and those of the new span.
proof fn lemma_covered_push<T: PartialOrd + Copy>(s: Seq<Span<T>>, x: Span<T>)
    ensures
        covered(s.push(x)) == covered(s).union(x.points()),
{
    let t = s.push(x);
    let both = covered(s).union(x.points());
    assert forall|p: T| #[trigger] covered(t).contains(p) <==> both.contains(p) by {
        assert(x.points().contains(p) <==> x.contains(p));
        if covered(t).contains(p) {
            let i = choose|i: int| 0 <= i < t.len() && (#[trigger] t[i]).contains(p);
            if i < s.len() {
                assert(s[i].contains(p));
            }
        }
        if covered(s).contains(p) {
            let i = choose|i: int| 0 <= i < s.len() && (#[trigger] s[i]).contains(p);
            assert(t[i].contains(p));
        }
        if x.contains(p) {
            assert(t[s.len() as int].contains(p));
        }
    }
    assert forall|p: T| #[trigger] both.contains(p) implies covered(t).contains(p) by {
    }
    assert(covered(t) =~= both);
}

/// What one pass of joining makes of a sorted sequence of spans that are
/// not empty: spans that are not empty, each with a gap before the next,
/// the last of them starting no later than the last span that went in; and,
/// if the spans that went in are proper, proper spans that cover the same
/// points.
proof fn lemma_merge_runs_shape<T: PartialOrd + Copy>(s: Seq<Span<T>>)
    requires
        is_total_order::<T>(),
        sorted_by(s, span_order()),
        all_wf(s),
        all_non_empty(s),
    ensures
        merge_runs(s).len() <= s.len(),
        s.len() > 0 ==> merge_runs(s).len() > 0 && !s.last().starts_before(merge_runs(s).last()),
        all_wf(merge_runs(s)),
        all_non_empty(merge_runs(s)),
        stepwise_separated(merge_runs(s)),
        all_proper(s) ==> all_proper(merge_runs(s)) && covered(merge_runs(s)) == covered(s),
    decreases s.len(),
{
    let o = merge_runs(s);
    if s.len() == 0 {
        assert(covered(o) =~= covered(s));
    } else {
        let s1 = s.drop_last();
        let x = s.last();
        let o1 = merge_runs(s1);
        let r = span_order::<T>();
        assert(sorted_by(s1, r)) by {
            assert forall|i: int, j: int| 0 <= i < j < s1.len() implies #[trigger] r(
                s1[i],
                s1[j],
            ) by {
                assert(r(s[i], s[j]));
            }
        }
        assert(all_wf(s1) && all_non_empty(s1)) by {
            assert forall|i: int| 0 <= i < s1.len() implies (#[trigger] s1[i]).wf()
                && !s1[i].is_empty() by {
                assert(s[i].wf() && !s[i].is_empty());
            }
        }
        if all_proper(s) {
            assert(all_proper(s1)) by {
                assert forall|i: int| 0 <= i < s1.len() implies (#[trigger] s1[i]).is_proper() by {
                    assert(s[i].is_proper());
                }
            }
        }
        lemma_merge_runs_shape(s1);
        assert(s =~= s1.push(x));
        lemma_covered_push(s1, x);
        assert(x.wf() && !x.is_empty());
        if s1.len() == 0 {
            assert(o1.len() == 0);
            assert(o =~= o1.push(x));
            lemma_covered_push(o1, x);
        } else {
            let acc = o1.last();
            let rest = o1.drop_last();
            assert(r(s[s.len() - 2], s[s.len() - 1]));
            assert(s1.last() == s[s.len() - 2]);
            assert(!x.starts_before(acc));
            assert(acc.wf() && !acc.is_empty());
            if all_proper(s) {
                assert(acc.is_proper() && x.is_proper());
            }
            lemma_join(acc, x);
            assert(o1 =~= rest.push(acc));
            lemma_covered_push(rest, acc);
            let front = if acc.union(x) is Some { rest } else { o1 };
            let tail = if acc.union(x) is Some { acc.union(x).unwrap() } else { x };
            assert(o == front.push(tail));
            lemma_covered_push(front, tail);
            assert forall|k: int| 0 <= k < o.len() implies (#[trigger] o[k]).wf() && !o[k].is_empty()
                && (all_proper(s) ==> o[k].is_proper()) by {
                if k < front.len() {
                    assert(o1[k].wf() && !o1[k].is_empty());
                    assert(all_proper(s) ==> o1[k].is_proper());
                }
            }
            assert forall|k: int| 0 <= k && k + 1 < o.len() implies (#[trigger] o[k]).gap_before(
                o[k + 1],
            ) by {
                if k + 1 < o1.len() {
                    assert(o1[k].gap_before(o1[k + 1]));
                }
            }
            if all_proper(s) {
                assert(covered(o) =~= covered(s));
            }
        }
    }
}

/// One pass of joining changes nothing in a sequence of spans that are not
/// empty and each have a gap before the next.
proof fn lemma_merge_runs_fixed<T: PartialOrd + Copy>(o: Seq<Span<T>>)
    requires
        all_non_empty(o),
        stepwise_separated(o),
    ensures
        merge_runs(o) == o,
    decreases o.len(),
{
    if o.len() > 0 {
        let o1 = o.drop_last();
        assert(all_non_empty(o1)) by {
            assert forall|i: int| 0 <= i < o1.len() implies !(#[trigger] o1[i]).is_empty() by {
                assert(!o[i].is_empty());
            }
        }
        assert(stepwise_separated(o1)) by {
            assert forall|k: int| 0 <= k && k + 1 < o1.len() implies (#[trigger] o1[k]).gap_before(
                o1[k + 1],
            ) by {
                assert(o[k].gap_before(o[k + 1]));
            }
        }
        lemma_merge_runs_fixed(o1);
        if o1.len() > 0 {
            assert(o[o.len() - 2].gap_before(o[o.len() - 2 + 1]));
            assert(!o[o.len() - 2].is_empty() && !o[o.len() - 1].is_empty());
            assert(o1.last().union(o.last()) is None);
        }
        assert(merge_runs(o) =~= o);
    } else {
        assert(merge_runs(o) =~= o);
    }
}

/// In a sequence of well-formed spans each with a gap before the next,
/// every span has a gap before every later one.
proof fn lemma_gap_chain<T: PartialOrd + Copy>(o: Seq<Span<T>>, i: int, j: int)
    requires
        is_total_order::<T>(),
        all_wf(o),
        stepwise_separated(o),
        0 <= i < j < o.len(),
    ensures
        o[i].gap_before(o[j]),
    decreases j - i,
{
    if j == i + 1 {
        assert(o[i].gap_before(o[i + 1]));
    } else {
        lemma_gap_chain(o, i, j - 1);
        assert(o[j - 1].gap_before(o[j - 1 + 1]));
        assert(o[j - 1].wf());
    }
}

/// A sequence of well-formed spans that are not empty and each have a gap
/// before the next is separated, sorted and ascending, and no two of its
/// spans could be joined.
proof fn lemma_separated_sorted<T: PartialOrd + Copy>(o: Seq<Span<T>>)
    requires
        is_total_order::<T>(),
        all_wf(o),
        all_non_empty(o),
        stepwise_separated(o),
    ensures
        separated(o),
        sorted_by(o, span_order()),
        ascending(o),
        pairwise_apart(o),
{
    let r = span_order::<T>();
    assert forall|i: int, j: int| 0 <= i < j < o.len() implies (#[trigger] o[i]).gap_before(
        #[trigger] o[j],
    ) && r(o[i], o[j]) && below(o[i].left.point(), o[j].left.point()) by {
        lemma_gap_chain(o, i, j);
        assert(o[i].wf() && !o[i].is_empty());
        assert(o[j].wf());
        assert(o[i].sorts_before(o[j]));
    }
    assert forall|i: int, j: int| 0 <= i < o.len() && 0 <= j < o.len() && i != j implies (
    #[trigger] o[i]).points().disjoint((#[trigger] o[j]).points()) && o[i].intersect(o[j]) is None
        && o[i].union(o[j]) is None by {
        let lo = if i < j { o[i] } else { o[j] };
        let hi = if i < j { o[j] } else { o[i] };
        assert(lo.gap_before(hi));
        assert(lo.wf() && !lo.is_empty() && hi.wf() && !hi.is_empty());
        lemma_gap_apart(lo, hi);
    }
}

/// Two well-formed spans with a gap between them share no point and have
/// neither an intersection nor a union, whichever comes first.
proof fn lemma_gap_apart<T: PartialOrd + Copy>(lo: Span<T>, hi: Span<T>)
    requires
        is_total_order::<T>(),
        lo.wf(),
        hi.wf(),
        !lo.is_empty(),
        !hi.is_empty(),
        lo.gap_before(hi),
    ensures
        lo.points().disjoint(hi.points()),
        hi.points().disjoint(lo.points()),
        lo.intersect(hi) is None,
        hi.intersect(lo) is None,
        lo.union(hi) is None,
        hi.union(lo) is None,
{
    assert forall|p: T| !(lo.points().contains(p) && hi.points().contains(p)) by {
        if lo.contains(p) && hi.contains(p) {
            assert(lo.contains(lo.right.point()) || below(p, hi.left.point()));
        }
    }
}

/// What normalization sorts: the spans of `xs` that are not empty, in
/// order. They are well-formed if those of `xs` are, proper if those are,
/// and cover the same points.
proof fn lemma_sorted_input<T: PartialOrd + Copy>(xs: Seq<Span<T>>)
    requires
        is_total_order::<T>(),
    ensures
        sorted_by(xs.filter(non_empty()).sort_by(span_order()), span_order()),
        all_non_empty(xs.filter(non_empty()).sort_by(span_order())),
        all_wf(xs) ==> all_wf(xs.filter(non_empty()).sort_by(span_order())),
        all_proper(xs) ==> all_proper(xs.filter(non_empty()).sort_by(span_order())),
        covered(xs.filter(non_empty()).sort_by(span_order())) == covered(xs),
{
    broadcast use vstd::seq_lib::group_to_multiset_ensures;

    let f = xs.filter(non_empty());
    let s = f.sort_by(span_order());
    lemma_span_order_total::<T>();
    f.lemma_sort_by_ensures(span_order());
    // Every span that was sorted is a span of `xs` that is not empty.
    assert forall|k: int| 0 <= k < s.len() implies exists|i: int|
        0 <= i < xs.len() && xs[i] == #[trigger] s[k] && !xs[i].is_empty() by {
        assert(s.contains(s[k]));
        assert(f.contains(s[k]));
        let m = choose|m: int| 0 <= m < f.len() && f[m] == s[k];
        xs.lemma_filter_pred(non_empty(), m);
        xs.lemma_filter_contains_rev(non_empty(), s[k]);
    }
    assert forall|k: int| 0 <= k < s.len() implies !(#[trigger] s[k]).is_empty() by {
        let i = choose|i: int| 0 <= i < xs.len() && xs[i] == s[k] && !xs[i].is_empty();
    }
    if all_wf(xs) {
        assert forall|k: int| 0 <= k < s.len() implies (#[trigger] s[k]).wf() by {
            let i = choose|i: int| 0 <= i < xs.len() && xs[i] == s[k] && !xs[i].is_empty();
            assert(xs[i].wf());
        }
    }
    if all_proper(xs) {
        assert forall|k: int| 0 <= k < s.len() implies (#[trigger] s[k]).is_proper() by {
            let i = choose|i: int| 0 <= i < xs.len() && xs[i] == s[k] && !xs[i].is_empty();
            assert(xs[i].is_proper());
        }
    }
    assert forall|p: T| covered(s).contains(p) <==> covered(xs).contains(p) by {
        if covered(s).contains(p) {
            let k = choose|k: int| 0 <= k < s.len() && (#[trigger] s[k]).contains(p);
            let i = choose|i: int| 0 <= i < xs.len() && xs[i] == s[k] && !xs[i].is_empty();
            assert(xs[i].contains(p));
        }
        if covered(xs).contains(p) {
            let i = choose|i: int| 0 <= i < xs.len() && (#[trigger] xs[i]).contains(p);
            assert(!xs[i].is_empty());
            xs.lemma_filter_contains(non_empty(), i);
            assert(f.contains(xs[i]));
            assert(f.to_multiset().count(xs[i]) > 0);
            assert(s.to_multiset().count(xs[i]) > 0);
            assert(s.contains(xs[i]));
            let k = choose|k: int| 0 <= k < s.len() && s[k] == xs[i];
            assert(s[k].contains(p));
        }
    }
    assert(covered(s) =~= covered(xs));
}

/// The normal form of well-formed spans is made of well-formed spans that
/// are not empty. It is separated: each span has a gap before every later
/// one, so no two share a point, touch, or could be joined. And it is
/// sorted, with left points that ascend.
pub proof fn lemma_normal_form_separated<T: PartialOrd + Copy>(xs: Seq<Span<T>>)
    requires
        is_total_order::<T>(),
        all_wf(xs),
    ensures
        all_wf(normal_form(xs)),
        all_non_empty(normal_form(xs)),
        separated(normal_form(xs)),
        pairwise_apart(normal_form(xs)),
        sorted_by(normal_form(xs), span_order()),
        ascending(normal_form(xs)),
{
    lemma_sorted_input(xs);
    lemma_merge_runs_shape(xs.filter(non_empty()).sort_by(span_order()));
    lemma_separated_sorted(normal_form(xs));
}

/// The normal form of proper, well-formed spans covers exactly the points
/// that the spans cover, and is made of proper spans.
pub proof fn lemma_normal_form_covers<T: PartialOrd + Copy>(xs: Seq<Span<T>>)
    requires
        is_total_order::<T>(),
        all_wf(xs),
        all_proper(xs),
    ensures
        covered(normal_form(xs)) == covered(xs),
        all_proper(normal_form(xs)),
{
    lemma_sorted_input(xs);
    lemma_merge_runs_shape(xs.filter(non_empty()).sort_by(span_order()));
}

/// Normalizing a normal form changes nothing.
pub proof fn lemma_normal_form_idempotent<T: PartialOrd + Copy>(xs: Seq<Span<T>>)
    requires
        is_total_order::<T>(),
        all_wf(xs),
    ensures
        normal_form(normal_form(xs)) == normal_form(xs),
{
    let o = normal_form(xs);
    lemma_sorted_input(xs);
    lemma_merge_runs_shape(xs.filter(non_empty()).sort_by(span_order()));
    lemma_separated_sorted(o);
    // Nothing is dropped from the normal form.
    assert(o.filter(non_empty()) == o) by {
        lemma_filter_keeps_all(o);
    }
    // It is already in order.
    lemma_span_order_total::<T>();
    o.lemma_sort_by_ensures(span_order());
    lemma_sorted_unique(o.sort_by(span_order()), o, span_order());
    // And nothing in it can be joined.
    lemma_merge_runs_fixed(o);
}

/// Dropping the empty spans changes nothing where there are none.
proof fn lemma_filter_keeps_all<T: PartialOrd + Copy>(o: Seq<Span<T>>)
    requires
        all_non_empty(o),
    ensures
        o.filter(non_empty()) == o,
    decreases o.len(),
{
    reveal(Seq::filter);
    if o.len() > 0 {
        let o1 = o.drop_last();
        assert(all_non_empty(o1)) by {
            assert forall|i: int| 0 <= i < o1.len() implies !(#[trigger] o1[i]).is_empty() by {
                assert(!o[i].is_empty());
            }
        }
        lemma_filter_keeps_all(o1);
        assert(!o[o.len() - 1].is_empty());
        assert(o1.push(o.last()) =~= o);
    }
}

/// Dropping the empty spans of a sequence drops them from its multiset.
proof fn lemma_filter_multiset<T: PartialOrd + Copy>(s: Seq<Span<T>>)
    ensures
        s.filter(non_empty()).to_multiset() == s.to_multiset().filter(non_empty()),
    decreases s.len(),
{
    broadcast use vstd::multiset::group_multiset_axioms;

    if s.len() == 0 {
        reveal(Seq::filter);
        assert forall|v: Span<T>| s.to_multiset().count(v) == 0 by {
            vstd::seq_lib::to_multiset_contains(s, v);
        }
        assert(s.filter(non_empty()).to_multiset() =~= s.to_multiset().filter(non_empty()));
    } else {
        let s1 = s.drop_last();
        let x = s.last();
        assert(s =~= s1.push(x));
        lemma_filter_multiset(s1);
        s1.lemma_filter_push(x, non_empty());
        vstd::seq_lib::to_multiset_build(s1, x);
        vstd::seq_lib::to_multiset_build(s1.filter(non_empty()), x);
        assert(s.filter(non_empty()).to_multiset() =~= s.to_multiset().filter(non_empty()));
    }
}

/// The normal form does not depend on the order in which the spans are
/// given: two sequences with the same spans, each as often in the one as in
/// the other, have the same normal form.
pub proof fn lemma_normal_form_permutation<T: PartialOrd + Copy>(xs: Seq<Span<T>>, ys: Seq<Span<T>>)
    requires
        is_total_order::<T>(),
        xs.to_multiset() == ys.to_multiset(),
    ensures
        normal_form(xs) == normal_form(ys),
{
    let fx = xs.filter(non_empty());
    let fy = ys.filter(non_empty());
    lemma_filter_multiset(xs);
    lemma_filter_multiset(ys);
    lemma_span_order_total::<T>();
    fx.lemma_sort_by_ensures(span_order());
    fy.lemma_sort_by_ensures(span_order());
    lemma_sorted_unique(fx.sort_by(span_order()), fy.sort_by(span_order()), span_order());
}

} // verus!
