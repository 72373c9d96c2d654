use vstd::prelude::*;
use crate::feed::{entries_view, FeedEntry, FeedEntryView};
use crate::merge::{newest_first, same_time_groups, sort_newest_first};
use crate::subscriptions::{Subscription, SubscriptionFetchError, SubscriptionView};

verus! {

/// One feed entry together with the subscription it came from.
pub struct AggregatedItem {
    pub subscription: Subscription,
    pub entry: FeedEntry,
}

/// The abstract value of an aggregated item.
pub struct AggregatedView {
    pub subscription: SubscriptionView,
    pub entry: FeedEntryView,
}

impl View for AggregatedItem {
    type V = AggregatedView;

    open spec fn view(&self) -> AggregatedView {
        AggregatedView { subscription: self.subscription@, entry: self.entry@ }
    }
}

pub open spec fn items_view(v: Seq<AggregatedItem>) -> Seq<AggregatedView> {
    v.map_values(|it: AggregatedItem| it@)
}

pub open spec fn subscriptions_view(v: Seq<Subscription>) -> Seq<SubscriptionView> {
    v.map_values(|s: Subscription| s@)
}

/// The entries a fetch produced, or `None` when it failed.
pub open spec fn outcome_view(o: Result<Vec<FeedEntry>, SubscriptionFetchError>) -> Option<
    Seq<FeedEntryView>,
> {
    match o {
        Ok(v) => Some(entries_view(v@)),
        Err(_) => None,
    }
}

pub open spec fn outcomes_view(v: Seq<Result<Vec<FeedEntry>, SubscriptionFetchError>>) -> Seq<
    Option<Seq<FeedEntryView>>,
> {
    v.map_values(|o: Result<Vec<FeedEntry>, SubscriptionFetchError>| outcome_view(o))
}

/// The items one subscription contributes: each of its entries paired with
/// it when its fetch succeeded, nothing when it failed.
pub open spec fn paired(sub: SubscriptionView, outcome: Option<Seq<FeedEntryView>>) -> Seq<
    AggregatedView,
> {
    match outcome {
        Some(es) => es.map_values(|e: FeedEntryView| AggregatedView { subscription: sub, entry: e }),
        None => Seq::empty(),
    }
}

/// The items of all subscriptions, subscription by subscription in input
/// order, and within one subscription in feed order.
pub open spec fn collected(
    subs: Seq<SubscriptionView>,
    outcomes: Seq<Option<Seq<FeedEntryView>>>,
) -> Seq<AggregatedView>
    decreases subs.len(),
{
    if subs.len() == 0 {
        Seq::empty()
    } else {
        collected(subs.drop_last(), outcomes.drop_last()) + paired(
            subs.last(),
            outcomes[subs.len() - 1],
        )
    }
}

/// Pairs every entry of every successful fetch with its subscription;
/// `outcomes[i]` is the result of fetching `subscriptions[i]`. A failed fetch
/// contributes nothing, and never fails the whole.
pub fn collect_items(
    subscriptions: &Vec<Subscription>,
    outcomes: Vec<Result<Vec<FeedEntry>, SubscriptionFetchError>>,
) -> (r: Vec<AggregatedItem>)
    requires
        subscriptions@.len() == outcomes@.len(),
    ensures
        items_view(r@) == collected(subscriptions_view(subscriptions@), outcomes_view(outcomes@)),
{
    let ghost sv = subscriptions_view(subscriptions@);
    let ghost ov = outcomes_view(outcomes@);
    let mut rest = outcomes;
    let mut out: Vec<AggregatedItem> = Vec::new();
    let n = subscriptions.len();
    let mut i: usize = 0;
    while i < n
        invariant
            n == subscriptions@.len(),
            n == ov.len(),
            sv == subscriptions_view(subscriptions@),
            0 <= i <= n,
            rest@.len() == n - i,
            forall|k: int| 0 <= k < n - i ==> outcome_view(#[trigger] rest@[k]) == ov[k + i],
            items_view(out@) == collected(sv.subrange(0, i as int), ov.subrange(0, i as int)),
        decreases n - i,
    {
        let outcome = rest.remove(0);
        let ghost base = items_view(out@);
        let ghost sub_v = sv[i as int];
        assert(sv.subrange(0, i + 1).drop_last() =~= sv.subrange(0, i as int));
        assert(ov.subrange(0, i + 1).drop_last() =~= ov.subrange(0, i as int));
        match outcome {
            Ok(entries) => {
                let ghost ev = entries_view(entries@);
                let sub = &subscriptions[i];
                let mut es = entries;
                let m = es.len();
                let mut j: usize = 0;
                while j < m
                    invariant
                        m == ev.len(),
                        0 <= j <= m,
                        es@.len() == m - j,
                        forall|k: int| 0 <= k < m - j ==> (#[trigger] es@[k])@ == ev[k + j],
                        sub@ == sub_v,
                        items_view(out@) == base + paired(sub_v, Some(ev.subrange(0, j as int))),
                    decreases m - j,
                {
                    let e = es.remove(0);
                    let ghost prev = out@;
                    out.push(AggregatedItem { subscription: sub.duplicate(), entry: e });
                    assert(items_view(out@) =~= items_view(prev).push(out@[prev.len() as int]@));
                    assert(paired(sub_v, Some(ev.subrange(0, j + 1))) =~= paired(
                        sub_v,
                        Some(ev.subrange(0, j as int)),
                    ).push(AggregatedView { subscription: sub_v, entry: ev[j as int] }));
                    j = j + 1;
                }
                assert(ev.subrange(0, m as int) =~= ev);
            },
            Err(_) => {
                assert(items_view(out@) =~= base + paired(sub_v, None));
            },
        }
        i = i + 1;
    }
    assert(sv.subrange(0, n as int) =~= sv);
    assert(ov.subrange(0, n as int) =~= ov);
    out
}

/// Merges the outcomes of fetching `subscriptions` (`outcomes[i]` belongs to
/// `subscriptions[i]`) into one newest-first sequence of items. Failed
/// fetches contribute nothing; the result is never an error.
pub fn aggregate(
    subscriptions: &Vec<Subscription>,
    outcomes: Vec<Result<Vec<FeedEntry>, SubscriptionFetchError>>,
) -> (r: Vec<AggregatedItem>)
    requires
        subscriptions@.len() == outcomes@.len(),
    ensures
        r@.len() == collected(subscriptions_view(subscriptions@), outcomes_view(outcomes@)).len(),
        newest_first(items_view(r@)),
        same_time_groups(
            items_view(r@),
            collected(subscriptions_view(subscriptions@), outcomes_view(outcomes@)),
        ),
{
    let items = collect_items(subscriptions, outcomes);
    sort_newest_first(items)
}

/// A subscription whose fetch failed contributes no items: the result is
/// what it would be had that subscription not been requested at all.
pub proof fn lemma_failed_fetch_isolated(
    subs: Seq<SubscriptionView>,
    outcomes: Seq<Option<Seq<FeedEntryView>>>,
    x: int,
)
    requires
        subs.len() == outcomes.len(),
        0 <= x < subs.len(),
        outcomes[x] is None,
    ensures
        collected(subs, outcomes) == collected(subs.remove(x), outcomes.remove(x)),
    decreases subs.len(),
{
    let n = subs.len() - 1;
    if x == n {
        assert(subs.remove(x) =~= subs.drop_last());
        assert(outcomes.remove(x) =~= outcomes.drop_last());
        assert(collected(subs, outcomes) =~= collected(subs.drop_last(), outcomes.drop_last()));
    } else {
        lemma_failed_fetch_isolated(subs.drop_last(), outcomes.drop_last(), x);
        assert(subs.remove(x).drop_last() =~= subs.drop_last().remove(x));
        assert(outcomes.remove(x).drop_last() =~= outcomes.drop_last().remove(x));
        assert(subs.remove(x).last() == subs.last());
        assert(outcomes.remove(x)[subs.remove(x).len() - 1] == outcomes[n]);
    }
}

/// When every fetch fails, the result is empty.
pub proof fn lemma_all_failed_empty(
    subs: Seq<SubscriptionView>,
    outcomes: Seq<Option<Seq<FeedEntryView>>>,
)
    requires
        subs.len() == outcomes.len(),
        forall|i: int| 0 <= i < outcomes.len() ==> (#[trigger] outcomes[i]) is None,
    ensures
        collected(subs, outcomes) == Seq::<AggregatedView>::empty(),
    decreases subs.len(),
{
    if subs.len() > 0 {
        lemma_all_failed_empty(subs.drop_last(), outcomes.drop_last());
        assert(collected(subs, outcomes) =~= collected(subs.drop_last(), outcomes.drop_last()));
    }
}

/// The total number of entries that successful fetches produced.
pub open spec fn success_count(outcomes: Seq<Option<Seq<FeedEntryView>>>) -> nat
    decreases outcomes.len(),
{
    if outcomes.len() == 0 {
        0
    } else {
        success_count(outcomes.drop_last()) + match outcomes.last() {
            Some(es) => es.len(),
            None => 0,
        }
    }
}

/// There are exactly as many items as successful fetches produced entries.
pub proof fn lemma_item_count(subs: Seq<SubscriptionView>, outcomes: Seq<Option<Seq<FeedEntryView>>>)
    requires
        subs.len() == outcomes.len(),
    ensures
        collected(subs, outcomes).len() == success_count(outcomes),
    decreases subs.len(),
{
    if subs.len() > 0 {
        lemma_item_count(subs.drop_last(), outcomes.drop_last());
    }
}

} // verus!
