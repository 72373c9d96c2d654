use vstd::prelude::*;

verus! {

/// Why one subscription contributed no entries.
pub enum SubscriptionFetchError {
    /// The request failed, timed out, or answered with a non-success status.
    Transport(String),
    /// The subscription's URL could not be parsed.
    UrlSyntax,
    /// The fetched body is not a valid feed document.
    Format,
}

/// A named, tagged reference to one feed's location.
pub struct Subscription {
    pub name: String,
    pub url: String,
    pub tags: Vec<String>,
}

/// The abstract value of a subscription.
pub struct SubscriptionView {
    pub name: Seq<char>,
    pub url: Seq<char>,
    pub tags: Seq<Seq<char>>,
}

pub open spec fn strings_view(v: Seq<String>) -> Seq<Seq<char>> {
    v.map_values(|s: String| s@)
}

impl View for Subscription {
    type V = SubscriptionView;

    open spec fn view(&self) -> SubscriptionView {
        SubscriptionView { name: self.name@, url: self.url@, tags: strings_view(self.tags@) }
    }
}

/// Whether the two tag lists have a tag in common.
pub open spec fn shares_tag(tags: Seq<Seq<char>>, allowed: Seq<Seq<char>>) -> bool {
    exists|i: int, j: int| 0 <= i < tags.len() && 0 <= j < allowed.len() && tags[i] == allowed[j]
}

/// Whether a subscription with these tags passes an optional allow-list:
/// with no list every subscription passes, otherwise it must share a tag.
pub open spec fn passes_filter(tags: Seq<Seq<char>>, allowed: Option<Seq<Seq<char>>>) -> bool {
    match allowed {
        None => true,
        Some(a) => shares_tag(tags, a),
    }
}

pub open spec fn allowed_view(allowed: Option<Vec<String>>) -> Option<Seq<Seq<char>>> {
    match allowed {
        None => None,
        Some(v) => Some(strings_view(v@)),
    }
}

/// The predicate of the tag filter, for a given allow-list.
pub open spec fn filter_pred(allowed: Option<Seq<Seq<char>>>) -> spec_fn(Subscription) -> bool {
    |s: Subscription| passes_filter(s@.tags, allowed)
}

/// The subscriptions that pass the allow-list, in their input order.
pub open spec fn filtered(subs: Seq<Subscription>, allowed: Option<Seq<Seq<char>>>) -> Seq<
    Subscription,
> {
    subs.filter(filter_pred(allowed))
}

/// Whether `needle` equals one of the strings of `list`.
fn contains_string(list: &Vec<String>, needle: &String) -> (r: bool)
    ensures
        r == exists|j: int| 0 <= j < list@.len() && list@[j]@ == needle@,
{
    let n = list.len();
    let mut j: usize = 0;
    while j < n
        invariant
            n == list@.len(),
            0 <= j <= n,
            forall|k: int| 0 <= k < j ==> list@[k]@ != needle@,
        decreases n - j,
    {
        if list[j].eq(needle) {
            return true;
        }
        j = j + 1;
    }
    false
}

impl Subscription {
    /// Whether this subscription has at least one tag in `allowed`.
    pub fn has_any_tag(&self, allowed: &Vec<String>) -> (r: bool)
        ensures
            r == shares_tag(self@.tags, strings_view(allowed@)),
    {
        let n = self.tags.len();
        let mut i: usize = 0;
        while i < n
            invariant
                n == self.tags@.len(),
                0 <= i <= n,
                forall|k: int, j: int|
                    0 <= k < i && 0 <= j < allowed@.len() ==> self.tags@[k]@ != allowed@[j]@,
            decreases n - i,
        {
            if contains_string(allowed, &self.tags[i]) {
                proof {
                    let j = choose|j: int| 0 <= j < allowed@.len() && allowed@[j]@ == self.tags@[i as int]@;
                    assert(self@.tags[i as int] == strings_view(allowed@)[j]);
                }
                return true;
            }
            i = i + 1;
        }
        false
    }

    /// Whether this subscription passes the optional allow-list.
    pub fn is_allowed(&self, allowed_tags: &Option<Vec<String>>) -> (r: bool)
        ensures
            r == passes_filter(self@.tags, allowed_view(*allowed_tags)),
    {
        match allowed_tags {
            None => true,
            Some(a) => self.has_any_tag(a),
        }
    }

    /// A copy of this subscription with the same name, URL and tags.
    pub fn duplicate(&self) -> (r: Subscription)
        ensures
            r@ == self@,
    {
        let mut tags: Vec<String> = Vec::new();
        let n = self.tags.len();
        let mut i: usize = 0;
        while i < n
            invariant
                n == self.tags@.len(),
                0 <= i <= n,
                tags@ == self.tags@.subrange(0, i as int),
            decreases n - i,
        {
            tags.push(self.tags[i].clone());
            i = i + 1;
        }
        assert(tags@ == self.tags@);
        Subscription { name: self.name.clone(), url: self.url.clone(), tags }
    }
}

/// Restricts `subscriptions` to those that pass the optional allow-list,
/// keeping their order. With no list all of them are kept; with an empty
/// list none is.
pub fn filter_subscriptions(subscriptions: Vec<Subscription>, allowed_tags: &Option<Vec<String>>) -> (r:
    Vec<Subscription>)
    ensures
        r@ == filtered(subscriptions@, allowed_view(*allowed_tags)),
{
    let ghost all = subscriptions@;
    let ghost p = filter_pred(allowed_view(*allowed_tags));
    let mut rest = subscriptions;
    let mut out: Vec<Subscription> = Vec::new();
    let n = rest.len();
    let mut i: usize = 0;
    while i < n
        invariant
            n == all.len(),
            0 <= i <= n,
            rest@ == all.subrange(i as int, n as int),
            out@ == all.subrange(0, i as int).filter(p),
            p == filter_pred(allowed_view(*allowed_tags)),
        decreases n - i,
    {
        let s = rest.remove(0);
        proof {
            assert(all.subrange(0, i + 1) == all.subrange(0, i as int).push(s));
            all.subrange(0, i as int).lemma_filter_push(s, p);
        }
        if s.is_allowed(allowed_tags) {
            out.push(s);
        }
        i = i + 1;
    }
    assert(all.subrange(0, n as int) == all);
    out
}

/// Whether the k-th element of `a` is the `idx[k]`-th of `b`, for strictly
/// increasing indices.
pub open spec fn subsequence_by<A>(a: Seq<A>, b: Seq<A>, idx: Seq<int>) -> bool {
    &&& idx.len() == a.len()
    &&& forall|k: int| 0 <= k < idx.len() ==> 0 <= #[trigger] idx[k] < b.len() && a[k] == b[idx[k]]
    &&& forall|k: int, l: int| 0 <= k < l < idx.len() ==> idx[k] < idx[l]
}

/// Whether `a` is `b` with some elements left out, the rest in order.
pub open spec fn is_subsequence<A>(a: Seq<A>, b: Seq<A>) -> bool {
    exists|idx: Seq<int>| subsequence_by(a, b, idx)
}

proof fn lemma_filter_subsequence<A>(s: Seq<A>, p: spec_fn(A) -> bool)
    ensures
        is_subsequence(s.filter(p), s),
    decreases s.len(),
{
    reveal(Seq::filter);
    if s.len() == 0 {
        let idx = Seq::<int>::empty();
        assert(subsequence_by(s.filter(p), s, idx));
    } else {
        let t = s.drop_last();
        lemma_filter_subsequence(t, p);
        let idx0 = choose|idx: Seq<int>| subsequence_by(t.filter(p), t, idx);
        let f = s.filter(p);
        if p(s.last()) {
            let idx = idx0.push(s.len() - 1);
            assert(f == t.filter(p).push(s.last()));
            assert forall|k: int| 0 <= k < idx.len() implies 0 <= #[trigger] idx[k] < s.len() && f[k] == s[idx[k]] by {
                if k < idx0.len() {
                    assert(idx[k] == idx0[k]);
                }
            }
            assert(forall|k: int, l: int| 0 <= k < l < idx.len() ==> idx[k] < idx[l]);
            assert(subsequence_by(f, s, idx));
        } else {
            assert(f == t.filter(p));
            assert forall|k: int| 0 <= k < idx0.len() implies 0 <= #[trigger] idx0[k] < s.len() && f[k] == s[idx0[k]] by {
                assert(t[idx0[k]] == s[idx0[k]]);
            }
            assert(subsequence_by(f, s, idx0));
        }
    }
}

proof fn lemma_filter_all<A>(s: Seq<A>, p: spec_fn(A) -> bool)
    requires
        forall|x: A| #[trigger] p(x),
    ensures
        s.filter(p) == s,
    decreases s.len(),
{
    reveal(Seq::filter);
    if s.len() > 0 {
        lemma_filter_all(s.drop_last(), p);
        assert(s.drop_last().push(s.last()) =~= s);
    }
}

/// The tag filter keeps a subsequence of its input, in order; every
/// subscription it keeps passes the allow-list; and with no allow-list it
/// keeps everything.
pub proof fn lemma_tag_filter_totality(subs: Seq<Subscription>, allowed: Option<Seq<Seq<char>>>)
    ensures
        is_subsequence(filtered(subs, allowed), subs),
        forall|i: int|
            0 <= i < filtered(subs, allowed).len() ==> passes_filter(
                (#[trigger] filtered(subs, allowed)[i])@.tags,
                allowed,
            ),
        allowed is None ==> filtered(subs, allowed) == subs,
{
    lemma_filter_subsequence(subs, filter_pred(allowed));
    assert forall|i: int| 0 <= i < filtered(subs, allowed).len() implies passes_filter(
        (#[trigger] filtered(subs, allowed)[i])@.tags,
        allowed,
    ) by {
        subs.lemma_filter_pred(filter_pred(allowed), i);
    }
    if allowed is None {
        lemma_filter_all(subs, filter_pred(allowed));
    }
}

/// The distinct elements of `s`, each once, in order of first occurrence.
pub open spec fn first_occurrences(s: Seq<Seq<char>>) -> Seq<Seq<char>>
    decreases s.len(),
{
    if s.len() == 0 {
        Seq::empty()
    } else {
        let d = first_occurrences(s.drop_last());
        if d.contains(s.last()) {
            d
        } else {
            d.push(s.last())
        }
    }
}

/// Relies on itertools::Itertools::unique: yields each distinct element the
/// first time it is seen, in the input's order.
#[verifier::external_body]
fn unique_strings(v: Vec<String>) -> (r: Vec<String>)
    ensures
        strings_view(r@) == first_occurrences(strings_view(v@)),
{
    itertools::Itertools::unique(v.into_iter()).collect()
}

/// The tags of all subscriptions taken in order, flattened.
pub open spec fn all_tags(subs: Seq<Subscription>) -> Seq<Seq<char>>
    decreases subs.len(),
{
    if subs.len() == 0 {
        Seq::empty()
    } else {
        all_tags(subs.drop_last()) + subs.last()@.tags
    }
}

/// Every tag used by the subscriptions, once each, in order of first use.
pub fn tag_vocabulary(subscriptions: &Vec<Subscription>) -> (r: Vec<String>)
    ensures
        strings_view(r@) == first_occurrences(all_tags(subscriptions@)),
{
    let mut tags: Vec<String> = Vec::new();
    let n = subscriptions.len();
    let mut i: usize = 0;
    while i < n
        invariant
            n == subscriptions@.len(),
            0 <= i <= n,
            strings_view(tags@) == all_tags(subscriptions@.subrange(0, i as int)),
        decreases n - i,
    {
        let sub = &subscriptions[i];
        let ghost base = tags@;
        let m = sub.tags.len();
        let mut j: usize = 0;
        while j < m
            invariant
                m == sub.tags@.len(),
                0 <= j <= m,
                tags@ == base + sub.tags@.subrange(0, j as int),
            decreases m - j,
        {
            tags.push(sub.tags[j].clone());
            j = j + 1;
        }
        assert(subscriptions@.subrange(0, i + 1).drop_last() =~= subscriptions@.subrange(0, i as int));
        assert(sub.tags@.subrange(0, m as int) =~= sub.tags@);
        assert(strings_view(tags@) =~= strings_view(base) + sub@.tags);
        i = i + 1;
    }
    assert(subscriptions@.subrange(0, n as int) =~= subscriptions@);
    unique_strings(tags)
}

} // verus!
