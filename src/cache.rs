use vstd::prelude::*;
use crate::opt_view;

verus! {

/// Freshness window, in seconds, recommended for cached feed bodies.
pub const FRESHNESS_SECONDS: u64 = 600;

/// The abstract contents of a cache: for each URL, the stored body and the
/// time (in seconds) at which it was stored.
pub type CacheContents = Map<Seq<char>, (Seq<char>, u64)>;

/// A record stored at `stored_at` is still fresh at `now` when no more than
/// `ttl` seconds have passed since it was stored.
pub open spec fn is_fresh(stored_at: u64, ttl: u64, now: u64) -> bool {
    now <= stored_at + ttl
}

/// What a lookup of `url` at time `now` yields: the stored body when a record
/// exists and is still fresh, otherwise nothing.
pub open spec fn fresh_lookup(m: CacheContents, ttl: u64, url: Seq<char>, now: u64) -> Option<
    Seq<char>,
> {
    if m.contains_key(url) && is_fresh(m[url].1, ttl, now) {
        Some(m[url].0)
    } else {
        None
    }
}

/// One stored response body, keyed by the exact URL it was fetched from.
pub struct CacheRecord {
    pub url: String,
    pub body: String,
    pub stored_at: u64,
}

/// An in-memory cache of feed bodies keyed by URL, with a time-to-live.
/// The caller supplies the clock on every call.
pub struct FetchCache {
    records: Vec<CacheRecord>,
    ttl: u64,
    contents: Ghost<CacheContents>,
}

impl FetchCache {
    pub closed spec fn view(&self) -> CacheContents {
        self.contents@
    }

    pub closed spec fn ttl_spec(&self) -> u64 {
        self.ttl
    }

    /// Each URL is held by at most one record, and the records are exactly
    /// the abstract contents.
    pub closed spec fn wf(&self) -> bool {
        &&& forall|i: int, j: int|
            0 <= i < j < self.records@.len() ==> self.records@[i].url@
                != self.records@[j].url@
        &&& forall|i: int|
            0 <= i < self.records@.len() ==> #[trigger] self.contents@.contains_key(
                self.records@[i].url@,
            ) && self.contents@[self.records@[i].url@] == (
                self.records@[i].body@,
                self.records@[i].stored_at,
            )
        &&& forall|k: Seq<char>|
            #[trigger] self.contents@.contains_key(k) ==> exists|i: int|
                0 <= i < self.records@.len() && self.records@[i].url@ == k
    }

    /// An empty cache whose records stay fresh for `ttl` seconds.
    pub fn new(ttl: u64) -> (r: FetchCache)
        ensures
            r.wf(),
            r@ == CacheContents::empty(),
            r.ttl_spec() == ttl,
    {
        FetchCache { records: Vec::new(), ttl, contents: Ghost(Map::empty()) }
    }

    /// The freshness window of this cache, in seconds.
    pub fn ttl(&self) -> (r: u64)
        ensures
            r == self.ttl_spec(),
    {
        self.ttl
    }

    /// The body stored for exactly `url`, if one exists and is still fresh at
    /// `now`; a stale or absent record is a plain miss.
    pub fn get(&self, url: &String, now: u64) -> (r: Option<String>)
        requires
            self.wf(),
        ensures
            opt_view(r) == fresh_lookup(self@, self.ttl_spec(), url@, now),
    {
        let n = self.records.len();
        let mut i: usize = 0;
        while i < n
            invariant
                self.wf(),
                n == self.records@.len(),
                0 <= i <= n,
                forall|j: int| 0 <= j < i ==> self.records@[j].url@ != url@,
            decreases n - i,
        {
            let rec = &self.records[i];
            if rec.url.eq(url) {
                assert(self.records@[i as int].url@ == url@);
                assert(self@.contains_key(self.records@[i as int].url@));
                if now <= rec.stored_at || now - rec.stored_at <= self.ttl {
                    return Some(rec.body.clone());
                } else {
                    return None;
                }
            }
            i = i + 1;
        }
        assert(!self@.contains_key(url@));
        None
    }

    /// Stores `body` for `url` as fetched at `now`, replacing any earlier
    /// record for the same URL.
    pub fn put(&mut self, url: String, body: String, now: u64)
        requires
            old(self).wf(),
        ensures
            final(self).wf(),
            final(self)@ == old(self)@.insert(url@, (body@, now)),
            final(self).ttl_spec() == old(self).ttl_spec(),
    {
        let ghost key = url@;
        let ghost val = (body@, now);
        let n = self.records.len();
        let mut i: usize = 0;
        while i < n
            invariant
                self.wf(),
                n == self.records@.len(),
                0 <= i <= n,
                forall|j: int| 0 <= j < i ==> self.records@[j].url@ != key,
                key == url@,
                val == (body@, now),
                self@ == old(self)@,
                self.ttl == old(self).ttl,
            decreases n - i,
        {
            if self.records[i].url.eq(&url) {
                let ghost before = self.records@;
                self.records.set(i, CacheRecord { url, body, stored_at: now });
                self.contents = Ghost(self.contents@.insert(key, val));
                assert forall|k: Seq<char>| #[trigger] self.contents@.contains_key(k) implies exists|
                    j: int,
                | 0 <= j < self.records@.len() && self.records@[j].url@ == k by {
                    if k != key {
                        let j = choose|j: int| 0 <= j < before.len() && before[j].url@ == k;
                        assert(self.records@[j].url@ == k);
                    } else {
                        assert(self.records@[i as int].url@ == k);
                    }
                }
                return ;
            }
            i = i + 1;
        }
        let ghost before = self.records@;
        self.records.push(CacheRecord { url, body, stored_at: now });
        self.contents = Ghost(self.contents@.insert(key, val));
        assert forall|k: Seq<char>| #[trigger] self.contents@.contains_key(k) implies exists|
            j: int,
        | 0 <= j < self.records@.len() && self.records@[j].url@ == k by {
            if k != key {
                let j = choose|j: int| 0 <= j < before.len() && before[j].url@ == k;
                assert(self.records@[j].url@ == k);
            } else {
                assert(self.records@[n as int].url@ == k);
            }
        }
    }
}

/// Within the freshness window, a lookup of a URL just stored yields exactly
/// the stored body, so a second fetch needs no request and sees the same
/// content as the first.
pub proof fn lemma_fresh_hit(
    m: CacheContents,
    ttl: u64,
    url: Seq<char>,
    body: Seq<char>,
    stored_at: u64,
    now: u64,
)
    requires
        now <= stored_at + ttl,
    ensures
        fresh_lookup(m.insert(url, (body, stored_at)), ttl, url, now) == Some(body),
{
}

/// Once the freshness window has passed, a stored record is a miss, so a
/// fetch makes a fresh request.
pub proof fn lemma_expired_miss(
    m: CacheContents,
    ttl: u64,
    url: Seq<char>,
    body: Seq<char>,
    stored_at: u64,
    now: u64,
)
    requires
        now > stored_at + ttl,
    ensures
        fresh_lookup(m.insert(url, (body, stored_at)), ttl, url, now) is None,
{
}

} // verus!
