use vstd::prelude::*;
use crate::aggregate::{items_view, AggregatedItem, AggregatedView};

verus! {

/// Whether an item published at `a` may come before one published at `b` in
/// a newest-first order: later instants first, and a missing instant counts
/// as older than every present one.
pub open spec fn newer_or_same(a: Option<i64>, b: Option<i64>) -> bool {
    match (a, b) {
        (Some(x), Some(y)) => x >= y,
        (Some(_), None) => true,
        (None, Some(_)) => false,
        (None, None) => true,
    }
}

pub open spec fn time_of(it: AggregatedView) -> Option<i64> {
    it.entry.published_at
}

/// Whether the items are ordered newest first.
pub open spec fn newest_first(s: Seq<AggregatedView>) -> bool {
    forall|i: int, j: int|
        0 <= i < j < s.len() ==> newer_or_same(time_of(s[i]), time_of(s[j]))
}

/// Selects the items published at exactly `t` (or, for `None`, those with no
/// usable instant).
pub open spec fn at_time(t: Option<i64>) -> spec_fn(AggregatedView) -> bool {
    |it: AggregatedView| time_of(it) == t
}

/// Whether, for every instant, the items of `a` and of `b` published at that
/// instant are the same items in the same order.
pub open spec fn same_time_groups(a: Seq<AggregatedView>, b: Seq<AggregatedView>) -> bool {
    forall|t: Option<i64>| #[trigger] a.filter(at_time(t)) == b.filter(at_time(t))
}

/// `newer_or_same` on executable values.
pub fn is_newer_or_same(a: Option<i64>, b: Option<i64>) -> (r: bool)
    ensures
        r == newer_or_same(a, b),
{
    match (a, b) {
        (Some(x), Some(y)) => x >= y,
        (Some(_), None) => true,
        (None, Some(_)) => false,
        (None, None) => true,
    }
}

proof fn lemma_filter_none(s: Seq<AggregatedView>, p: spec_fn(AggregatedView) -> bool)
    requires
        forall|i: int| 0 <= i < s.len() ==> !p(#[trigger] s[i]),
    ensures
        s.filter(p) == Seq::<AggregatedView>::empty(),
    decreases s.len(),
{
    reveal(Seq::filter);
    if s.len() > 0 {
        lemma_filter_none(s.drop_last(), p);
    }
}

/// Inserting `x` at a position `p` before which every item is newer or the
/// same, and from which every item is strictly older, appends `x` to its own
/// time group and leaves the other groups as they were.
proof fn lemma_insert_groups(v: Seq<AggregatedView>, p: int, x: AggregatedView, t: Option<i64>)
    requires
        0 <= p <= v.len(),
        forall|q: int| p <= q < v.len() ==> time_of(#[trigger] v[q]) != time_of(x),
    ensures
        v.insert(p, x).filter(at_time(t)) == if time_of(x) == t {
            v.filter(at_time(t)).push(x)
        } else {
            v.filter(at_time(t))
        },
{
    let a = v.subrange(0, p);
    let b = v.subrange(p, v.len() as int);
    assert(v == a + b);
    assert(v.insert(p, x) == a.push(x) + b);
    Seq::filter_distributes_over_add(a, b, at_time(t));
    Seq::filter_distributes_over_add(a.push(x), b, at_time(t));
    a.lemma_filter_push(x, at_time(t));
    if time_of(x) == t {
        assert forall|i: int| 0 <= i < b.len() implies !at_time(t)(#[trigger] b[i]) by {
            assert(b[i] == v[p + i]);
        }
        lemma_filter_none(b, at_time(t));
        assert(b.filter(at_time(t)) == Seq::<AggregatedView>::empty());
        assert(a.filter(at_time(t)) + Seq::<AggregatedView>::empty() == a.filter(at_time(t)));
        assert(a.filter(at_time(t)).push(x) + Seq::<AggregatedView>::empty() == a.filter(
            at_time(t),
        ).push(x));
    }
}

/// Orders the items newest first. Items without a usable publication instant
/// come after all others; items with equal instants (or both without one)
/// keep their relative input order.
pub fn sort_newest_first(items: Vec<AggregatedItem>) -> (r: Vec<AggregatedItem>)
    ensures
        r@.len() == items@.len(),
        newest_first(items_view(r@)),
        same_time_groups(items_view(r@), items_view(items@)),
{
    let ghost all = items_view(items@);
    let mut rest = items;
    let mut out: Vec<AggregatedItem> = Vec::new();
    let n = rest.len();
    let mut i: usize = 0;
    assert(items_view(out@) =~= all.subrange(0, 0));
    while i < n
        invariant
            n == all.len(),
            0 <= i <= n,
            rest@.len() == n - i,
            forall|k: int| 0 <= k < n - i ==> (#[trigger] rest@[k])@ == all[k + i],
            out@.len() == i,
            newest_first(items_view(out@)),
            same_time_groups(items_view(out@), all.subrange(0, i as int)),
        decreases n - i,
    {
        let x = rest.remove(0);
        let ghost v = items_view(out@);
        let m = out.len();
        let mut p: usize = 0;
        while p < m && is_newer_or_same(out[p].entry.published_at, x.entry.published_at)
            invariant
                m == out@.len(),
                v == items_view(out@),
                0 <= p <= m,
                forall|q: int| 0 <= q < p ==> newer_or_same(time_of(#[trigger] v[q]), time_of(x@)),
            decreases m - p,
        {
            p = p + 1;
        }
        proof {
            assert forall|q: int| p <= q < v.len() implies !newer_or_same(
                time_of(#[trigger] v[q]),
                time_of(x@),
            ) by {
                assert(newer_or_same(time_of(v[p as int]), time_of(v[q])));
            }
            assert forall|t: Option<i64>| #[trigger] v.insert(p as int, x@).filter(at_time(t))
                == all.subrange(0, i + 1).filter(at_time(t)) by {
                lemma_insert_groups(v, p as int, x@, t);
                assert(all.subrange(0, i + 1) == all.subrange(0, i as int).push(x@));
                all.subrange(0, i as int).lemma_filter_push(x@, at_time(t));
            }
        }
        out.insert(p, x);
        assert(items_view(out@) =~= v.insert(p as int, x@));
        i = i + 1;
    }
    assert(all.subrange(0, n as int) =~= all);
    out
}

proof fn lemma_two_selected(s: Seq<AggregatedView>, p: spec_fn(AggregatedView) -> bool, i: int, j: int)
    requires
        0 <= i < j < s.len(),
        p(s[i]),
        p(s[j]),
    ensures
        s.filter(p).len() >= 2,
    decreases s.len(),
{
    reveal(Seq::filter);
    let t = s.drop_last();
    if j == s.len() - 1 {
        assert(t[i] == s[i]);
        t.lemma_filter_contains(p, i);
        assert(t.filter(p).len() >= 1);
    } else {
        assert(t[i] == s[i] && t[j] == s[j]);
        lemma_two_selected(t, p, i, j);
    }
}

proof fn lemma_at_most_one_selected(s: Seq<AggregatedView>, p: spec_fn(AggregatedView) -> bool)
    requires
        forall|i: int, j: int| 0 <= i < j < s.len() ==> !(p(#[trigger] s[i]) && p(#[trigger] s[j])),
    ensures
        s.filter(p).len() <= 1,
    decreases s.len(),
{
    reveal(Seq::filter);
    if s.len() > 0 {
        let t = s.drop_last();
        assert forall|i: int, j: int| 0 <= i < j < t.len() implies !(p(#[trigger] t[i]) && p(#[trigger] t[j])) by {
            assert(t[i] == s[i] && t[j] == s[j]);
        }
        lemma_at_most_one_selected(t, p);
        if p(s.last()) {
            assert forall|i: int| 0 <= i < t.len() implies !p(#[trigger] t[i]) by {
                assert(t[i] == s[i]);
            }
            lemma_filter_none(t, p);
        }
    }
}

/// Items without a usable publication instant come after every item that
/// has one, in their relative input order.
pub proof fn lemma_missing_times_last(items: Seq<AggregatedView>, sorted: Seq<AggregatedView>)
    requires
        newest_first(sorted),
        same_time_groups(sorted, items),
    ensures
        forall|i: int, j: int|
            0 <= i < j < sorted.len() && time_of(#[trigger] sorted[i]) is None ==> time_of(
                #[trigger] sorted[j],
            ) is None,
        sorted.filter(at_time(None)) == items.filter(at_time(None)),
{
    assert forall|i: int, j: int|
        0 <= i < j < sorted.len() && time_of(#[trigger] sorted[i]) is None implies time_of(
            #[trigger] sorted[j],
        ) is None by {
        assert(newer_or_same(time_of(sorted[i]), time_of(sorted[j])));
    }
    assert(sorted.filter(at_time(None)) == items.filter(at_time(None)));
}

/// Items whose instants are all present and pairwise distinct come out in
/// strictly decreasing order of instant, each input item exactly once.
pub proof fn lemma_distinct_times_exact_order(
    items: Seq<AggregatedView>,
    sorted: Seq<AggregatedView>,
)
    requires
        sorted.len() == items.len(),
        newest_first(sorted),
        same_time_groups(sorted, items),
        forall|i: int| 0 <= i < items.len() ==> (#[trigger] time_of(items[i])) is Some,
        forall|i: int, j: int|
            0 <= i < j < items.len() ==> time_of(#[trigger] items[i]) != time_of(
                #[trigger] items[j],
            ),
    ensures
        forall|i: int| 0 <= i < sorted.len() ==> items.contains(#[trigger] sorted[i]),
        forall|j: int| 0 <= j < items.len() ==> sorted.contains(#[trigger] items[j]),
        forall|i: int, j: int|
            0 <= i < j < sorted.len() ==> time_of(#[trigger] sorted[i])->Some_0 > time_of(
                #[trigger] sorted[j],
            )->Some_0,
{
    assert forall|i: int| 0 <= i < sorted.len() implies items.contains(#[trigger] sorted[i]) by {
        let t = time_of(sorted[i]);
        sorted.lemma_filter_contains(at_time(t), i);
        assert(sorted.filter(at_time(t)) == items.filter(at_time(t)));
        items.lemma_filter_contains_rev(at_time(t), sorted[i]);
    }
    assert forall|j: int| 0 <= j < items.len() implies sorted.contains(#[trigger] items[j]) by {
        let t = time_of(items[j]);
        items.lemma_filter_contains(at_time(t), j);
        assert(sorted.filter(at_time(t)) == items.filter(at_time(t)));
        sorted.lemma_filter_contains_rev(at_time(t), items[j]);
    }
    assert forall|i: int, j: int| 0 <= i < j < sorted.len() implies time_of(
        #[trigger] sorted[i],
    )->Some_0 > time_of(#[trigger] sorted[j])->Some_0 by {
        assert(items.contains(sorted[i]));
        assert(items.contains(sorted[j]));
        let a = choose|a: int| 0 <= a < items.len() && items[a] == sorted[i];
        let b = choose|b: int| 0 <= b < items.len() && items[b] == sorted[j];
        assert(time_of(items[a]) is Some && time_of(items[b]) is Some);
        assert(newer_or_same(time_of(sorted[i]), time_of(sorted[j])));
        if time_of(sorted[i]) == time_of(sorted[j]) {
            let t = time_of(sorted[i]);
            lemma_two_selected(sorted, at_time(t), i, j);
            assert forall|x: int, y: int| 0 <= x < y < items.len() implies !(at_time(t)(
                #[trigger] items[x],
            ) && at_time(t)(#[trigger] items[y])) by {
                assert(time_of(items[x]) != time_of(items[y]));
            }
            lemma_at_most_one_selected(items, at_time(t));
            assert(sorted.filter(at_time(t)) == items.filter(at_time(t)));
        }
    }
}

} // verus!
