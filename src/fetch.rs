use vstd::prelude::*;
use crate::cache::{fresh_lookup, FetchCache};
use crate::feed::{entries_of, entries_view, parse_entries, FeedEntry};
use crate::subscriptions::{Subscription, SubscriptionFetchError};

verus! {

#[verifier::external_type_specification]
#[verifier::external_body]
pub struct ExUrlParseError(url::ParseError);

/// Whether `s` is an absolute URL that the URL parser accepts.
pub uninterp spec fn url_parses(s: Seq<char>) -> bool;

/// Relies on url::Url::parse: whether the text is a valid absolute URL.
#[verifier::external_body]
fn check_url(s: &str) -> (r: Result<(), url::ParseError>)
    ensures
        r is Ok <==> url_parses(s@),
{
    url::Url::parse(s).map(|_| ())
}

/// What to do first when fetching a subscription.
pub enum FetchStep {
    /// A fresh cached body exists: parse it, no request is made.
    Cached(String),
    /// Nothing fresh is cached: request this URL.
    Request(String),
    /// The subscription cannot be fetched at all.
    Failed(SubscriptionFetchError),
}

impl Subscription {
    /// Decides how to fetch this subscription at time `now`: from a fresh
    /// cache record when there is one, otherwise by a request, unless the URL
    /// does not parse.
    pub fn begin_fetch(&self, cache: &FetchCache, now: u64) -> (r: FetchStep)
        requires
            cache.wf(),
        ensures
            match fresh_lookup(cache@, cache.ttl_spec(), self.url@, now) {
                Some(b) => r matches FetchStep::Cached(c) && c@ == b,
                None => if url_parses(self.url@) {
                    r matches FetchStep::Request(u) && u@ == self.url@
                } else {
                    r matches FetchStep::Failed(SubscriptionFetchError::UrlSyntax)
                },
            },
    {
        match cache.get(&self.url, now) {
            Some(b) => FetchStep::Cached(b),
            None => match check_url(self.url.as_str()) {
                Ok(()) => FetchStep::Request(self.url.clone()),
                Err(_) => FetchStep::Failed(SubscriptionFetchError::UrlSyntax),
            },
        }
    }

    /// Completes a fetch that needed a request, given what the request gave.
    /// A body is stored in the cache as fetched at `now` (whether or not it
    /// then parses) and parsed; a failed request leaves the cache unchanged
    /// and is passed on.
    pub fn finish_fetch(
        &self,
        cache: &mut FetchCache,
        response: Result<String, SubscriptionFetchError>,
        now: u64,
    ) -> (r: Result<Vec<FeedEntry>, SubscriptionFetchError>)
        requires
            old(cache).wf(),
        ensures
            final(cache).wf(),
            final(cache).ttl_spec() == old(cache).ttl_spec(),
            match response {
                Ok(body) => {
                    &&& final(cache)@ == old(cache)@.insert(self.url@, (body@, now))
                    &&& match entries_of(body@) {
                        Some(es) => r is Ok && entries_view(r->Ok_0@) == es,
                        None => r matches Err(SubscriptionFetchError::Format),
                    }
                },
                Err(e) => final(cache)@ == old(cache)@ && r == Err::<Vec<FeedEntry>, _>(e),
            },
    {
        match response {
            Ok(body) => {
                let entries = parse_entries(&body);
                cache.put(self.url.clone(), body, now);
                entries
            },
            Err(e) => Err(e),
        }
    }
}

} // verus!
