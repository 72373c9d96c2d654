use vstd::prelude::*;
use crate::opt_view;
use crate::subscriptions::SubscriptionFetchError;

verus! {

#[verifier::external_type_specification]
#[verifier::external_body]
pub struct ExRssError(rss::Error);

#[verifier::external_type_specification]
#[verifier::external_body]
pub struct ExChronoParseError(chrono::ParseError);

/// The title, link and publication date of one item, as the document gives them.
pub type ItemFields = (Option<String>, Option<String>, Option<String>);

/// The abstract value of `ItemFields`.
pub type ItemFieldsView = (Option<Seq<char>>, Option<Seq<char>>, Option<Seq<char>>);

/// The items (title, link, publication date) of the RSS channel that `body`
/// holds, in document order, or `None` when `body` is not a channel.
pub uninterp spec fn rss_items(body: Seq<char>) -> Option<Seq<ItemFieldsView>>;

/// The instant, in seconds since the Unix epoch, that the RFC 2822 date-time
/// `s` denotes, or `None` when `s` is not one.
pub uninterp spec fn rfc2822_seconds(s: Seq<char>) -> Option<i64>;

pub open spec fn fields_view(f: ItemFields) -> ItemFieldsView {
    (opt_view(f.0), opt_view(f.1), opt_view(f.2))
}

/// Relies on rss::Channel::read_from and Item::{title, link, pub_date}: the
/// channel parsed from the body, and each item's optional fields.
#[verifier::external_body]
fn read_channel_items(body: &str) -> (r: Result<Vec<ItemFields>, rss::Error>)
    ensures
        match r {
            Ok(v) => rss_items(body@) == Some(v@.map_values(|f: ItemFields| fields_view(f))),
            Err(_) => rss_items(body@) is None,
        },
{
    let channel = rss::Channel::read_from(body.as_bytes())?;
    Ok(channel.items().iter().map(|i| (
        i.title().map(String::from),
        i.link().map(String::from),
        i.pub_date().map(String::from),
    )).collect())
}

/// Relies on chrono::DateTime::parse_from_rfc2822 and DateTime::timestamp:
/// the instant a date-time string denotes, in seconds since the epoch.
#[verifier::external_body]
fn parse_rfc2822(s: &str) -> (r: Result<i64, chrono::ParseError>)
    ensures
        match r {
            Ok(t) => rfc2822_seconds(s@) == Some(t),
            Err(_) => rfc2822_seconds(s@) is None,
        },
{
    chrono::DateTime::parse_from_rfc2822(s).map(|d| d.timestamp())
}

/// One item of a feed after parsing. An absent title is replaced by a
/// placeholder and an absent link by the empty string; `published_at` is the
/// publication instant in seconds since the epoch, absent when the date is
/// missing or unparsable, and `raw_date` keeps the date text as given.
pub struct FeedEntry {
    pub title: String,
    pub link: String,
    pub published_at: Option<i64>,
    pub raw_date: Option<String>,
}

/// The abstract value of a feed entry.
pub struct FeedEntryView {
    pub title: Seq<char>,
    pub link: Seq<char>,
    pub published_at: Option<i64>,
    pub raw_date: Option<Seq<char>>,
}

impl View for FeedEntry {
    type V = FeedEntryView;

    open spec fn view(&self) -> FeedEntryView {
        FeedEntryView {
            title: self.title@,
            link: self.link@,
            published_at: self.published_at,
            raw_date: opt_view(self.raw_date),
        }
    }
}

/// The title shown for an item that has none.
pub open spec fn placeholder_title() -> Seq<char> {
    "NO TITLE"@
}

/// The publication instant of an optional date text.
pub open spec fn instant_of(date: Option<Seq<char>>) -> Option<i64> {
    match date {
        Some(d) => rfc2822_seconds(d),
        None => None,
    }
}

/// The entry made from one item's fields.
pub open spec fn entry_of(f: ItemFieldsView) -> FeedEntryView {
    FeedEntryView {
        title: match f.0 {
            Some(t) => t,
            None => placeholder_title(),
        },
        link: match f.1 {
            Some(l) => l,
            None => Seq::empty(),
        },
        published_at: instant_of(f.2),
        raw_date: f.2,
    }
}

/// The entries of the feed document `body`, or `None` when it is not one.
pub open spec fn entries_of(body: Seq<char>) -> Option<Seq<FeedEntryView>> {
    match rss_items(body) {
        Some(items) => Some(items.map_values(|f: ItemFieldsView| entry_of(f))),
        None => None,
    }
}

pub open spec fn entries_view(v: Seq<FeedEntry>) -> Seq<FeedEntryView> {
    v.map_values(|e: FeedEntry| e@)
}

/// The publication instant of an optional date text.
pub fn parse_published(date: &Option<String>) -> (r: Option<i64>)
    ensures
        r == instant_of(opt_view(*date)),
{
    match date {
        Some(d) => match parse_rfc2822(d.as_str()) {
            Ok(t) => Some(t),
            Err(_) => None,
        },
        None => None,
    }
}

impl FeedEntry {
    /// The entry for an item with the given optional fields.
    pub fn from_fields(title: Option<String>, link: Option<String>, pub_date: Option<String>) -> (r:
        FeedEntry)
        ensures
            r@ == entry_of(fields_view((title, link, pub_date))),
    {
        let published_at = parse_published(&pub_date);
        let title = match title {
            Some(t) => t,
            None => String::from_str("NO TITLE"),
        };
        let link = match link {
            Some(l) => l,
            None => String::new(),
        };
        proof {
            reveal_strlit("NO TITLE");
        }
        FeedEntry { title, link, published_at, raw_date: pub_date }
    }
}

/// Parses a feed document into its entries, in document order. A body that
/// is not a feed document gives a format error and no entries.
pub fn parse_entries(body: &String) -> (r: Result<Vec<FeedEntry>, SubscriptionFetchError>)
    ensures
        match entries_of(body@) {
            Some(es) => r is Ok && entries_view(r->Ok_0@) == es,
            None => r matches Err(SubscriptionFetchError::Format),
        },
{
    match read_channel_items(body.as_str()) {
        Err(_) => Err(SubscriptionFetchError::Format),
        Ok(items) => {
            let ghost fv = items@.map_values(|f: ItemFields| fields_view(f));
            let mut rest = items;
            let mut out: Vec<FeedEntry> = Vec::new();
            let n = rest.len();
            let mut i: usize = 0;
            while i < n
                invariant
                    n == fv.len(),
                    0 <= i <= n,
                    rest@.len() == n - i,
                    out@.len() == i,
                    forall|k: int| 0 <= k < n - i ==> fields_view(#[trigger] rest@[k]) == fv[k + i],
                    entries_view(out@) == fv.subrange(0, i as int).map_values(
                        |f: ItemFieldsView| entry_of(f),
                    ),
                decreases n - i,
            {
                let (t, l, d) = rest.remove(0);
                let e = FeedEntry::from_fields(t, l, d);
                let ghost prev = out@;
                out.push(e);
                assert(fields_view((t, l, d)) == fv[i as int]);
                assert forall|k: int| 0 <= k < i implies #[trigger] entries_view(out@)[k]
                    == entries_view(prev)[k] by {
                    assert(out@[k] == prev[k]);
                }
                assert(entries_view(out@) =~= fv.subrange(0, i + 1).map_values(
                    |f: ItemFieldsView| entry_of(f),
                ));
                i = i + 1;
            }
            assert(fv.subrange(0, n as int) =~= fv);
            Ok(out)
        },
    }
}

} // verus!
