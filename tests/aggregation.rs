use feedwatch::aggregate::{aggregate, collect_items, AggregatedItem};
use feedwatch::cache::{FetchCache, FRESHNESS_SECONDS};
use feedwatch::feed::{parse_entries, parse_published, FeedEntry};
use feedwatch::fetch::FetchStep;
use feedwatch::merge::{is_newer_or_same, sort_newest_first};
use feedwatch::subscriptions::{filter_subscriptions, tag_vocabulary, Subscription, SubscriptionFetchError};

const JAN_02_2024: i64 = 1704153600;
const JAN_05_2024: i64 = 1704412800;

fn sub(name: &str, url: &str, tags: &[&str]) -> Subscription {
    Subscription {
        name: name.to_string(),
        url: url.to_string(),
        tags: tags.iter().map(|t| t.to_string()).collect(),
    }
}

fn feed_with(items: &[(&str, &str)]) -> String {
    let mut body = String::from(
        "<rss version=\"2.0\"><channel><title>T</title><link>https://example.com</link><description>D</description>",
    );
    for (title, date) in items {
        body.push_str(&format!("<item><title>{}</title><link>https://example.com/{}</link><pubDate>{}</pubDate></item>", title, title, date));
    }
    body.push_str("</channel></rss>");
    body
}

fn entry(title: &str, at: Option<i64>) -> FeedEntry {
    FeedEntry { title: title.to_string(), link: String::new(), published_at: at, raw_date: None }
}

fn item(sub_name: &str, title: &str, at: Option<i64>) -> AggregatedItem {
    AggregatedItem { subscription: sub(sub_name, "https://example.com/feed", &[]), entry: entry(title, at) }
}

/// Fetches each subscription through the cache, answering requests from
/// `bodies` (url, body); returns the outcomes and the URLs requested.
fn fetch_all(
    subs: &Vec<Subscription>,
    cache: &mut FetchCache,
    bodies: &[(&str, Option<&str>)],
    now: u64,
) -> (Vec<Result<Vec<FeedEntry>, SubscriptionFetchError>>, Vec<String>) {
    let mut outcomes = Vec::new();
    let mut requested = Vec::new();
    for s in subs {
        let outcome = match s.begin_fetch(cache, now) {
            FetchStep::Cached(body) => parse_entries(&body),
            FetchStep::Failed(e) => Err(e),
            FetchStep::Request(url) => {
                requested.push(url.clone());
                let response = match bodies.iter().find(|(u, _)| *u == url) {
                    Some((_, Some(b))) => Ok(b.to_string()),
                    _ => Err(SubscriptionFetchError::Transport("unreachable host".to_string())),
                };
                s.finish_fetch(cache, response, now)
            }
        };
        outcomes.push(outcome);
    }
    (outcomes, requested)
}

#[test]
fn end_to_end_without_filter() {
    let a_body = feed_with(&[("a1", "Tue, 02 Jan 2024 00:00:00 +0000")]);
    let b_body = feed_with(&[("b1", "Fri, 05 Jan 2024 00:00:00 +0000")]);
    let subs = vec![sub("A", "https://one.example/feed", &["x"]), sub("B", "https://two.example/feed", &["y"])];
    let chosen = filter_subscriptions(subs, &None);
    let mut cache = FetchCache::new(FRESHNESS_SECONDS);
    let bodies = [("https://one.example/feed", Some(a_body.as_str())), ("https://two.example/feed", Some(b_body.as_str()))];
    let (outcomes, requested) = fetch_all(&chosen, &mut cache, &bodies, 1000);
    assert_eq!(requested.len(), 2);
    let result = aggregate(&chosen, outcomes);
    assert_eq!(result.len(), 2);
    assert_eq!(result[0].subscription.name, "B");
    assert_eq!(result[0].entry.published_at, Some(JAN_05_2024));
    assert_eq!(result[1].subscription.name, "A");
    assert_eq!(result[1].entry.published_at, Some(JAN_02_2024));
}

#[test]
fn end_to_end_with_tag_filter() {
    let a_body = feed_with(&[("a1", "Tue, 02 Jan 2024 00:00:00 +0000")]);
    let b_body = feed_with(&[("b1", "Fri, 05 Jan 2024 00:00:00 +0000")]);
    let subs = vec![sub("A", "https://one.example/feed", &["x"]), sub("B", "https://two.example/feed", &["y"])];
    let chosen = filter_subscriptions(subs, &Some(vec!["x".to_string()]));
    let mut cache = FetchCache::new(FRESHNESS_SECONDS);
    let bodies = [("https://one.example/feed", Some(a_body.as_str())), ("https://two.example/feed", Some(b_body.as_str()))];
    let (outcomes, requested) = fetch_all(&chosen, &mut cache, &bodies, 1000);
    assert_eq!(requested, vec!["https://one.example/feed".to_string()]);
    let result = aggregate(&chosen, outcomes);
    assert_eq!(result.len(), 1);
    assert_eq!(result[0].subscription.name, "A");
    assert_eq!(result[0].entry.published_at, Some(JAN_02_2024));
    assert_eq!(result[0].entry.title, "a1");
}

#[test]
fn all_fetches_failing_gives_empty_result() {
    let subs = vec![sub("A", "https://one.example/feed", &["x"]), sub("B", "not a url", &["y"])];
    let mut cache = FetchCache::new(FRESHNESS_SECONDS);
    let (outcomes, _) = fetch_all(&subs, &mut cache, &[("https://one.example/feed", None)], 5);
    assert!(outcomes.iter().all(|o| o.is_err()));
    let result = aggregate(&subs, outcomes);
    assert!(result.is_empty());
}

#[test]
fn failed_fetch_contributes_nothing() {
    let y_body = feed_with(&[("y1", "Tue, 02 Jan 2024 00:00:00 +0000"), ("y2", "Wed, 03 Jan 2024 00:00:00 +0000")]);
    let z_body = feed_with(&[("z1", "Fri, 05 Jan 2024 00:00:00 +0000")]);
    let subs = vec![
        sub("X", "https://x.example/feed", &[]),
        sub("Y", "https://y.example/feed", &[]),
        sub("Z", "https://z.example/feed", &[]),
    ];
    let mut cache = FetchCache::new(FRESHNESS_SECONDS);
    let bodies = [
        ("https://x.example/feed", Some("<html>not a feed</html>")),
        ("https://y.example/feed", Some(y_body.as_str())),
        ("https://z.example/feed", Some(z_body.as_str())),
    ];
    let (outcomes, _) = fetch_all(&subs, &mut cache, &bodies, 0);
    assert!(matches!(outcomes[0], Err(SubscriptionFetchError::Format)));
    let collected = collect_items(&subs, outcomes);
    let names: Vec<(String, String)> =
        collected.iter().map(|i| (i.subscription.name.clone(), i.entry.title.clone())).collect();
    assert_eq!(
        names,
        vec![("Y".to_string(), "y1".to_string()), ("Y".to_string(), "y2".to_string()), ("Z".to_string(), "z1".to_string())]
    );
}

#[test]
fn second_fetch_within_window_uses_cache() {
    let body = feed_with(&[("a1", "Tue, 02 Jan 2024 00:00:00 +0000")]);
    let subs = vec![sub("A", "https://one.example/feed", &[])];
    let mut cache = FetchCache::new(600);
    let bodies = [("https://one.example/feed", Some(body.as_str()))];
    let (first, req1) = fetch_all(&subs, &mut cache, &bodies, 100);
    let (second, req2) = fetch_all(&subs, &mut cache, &[], 700);
    assert_eq!(req1.len(), 1);
    assert!(req2.is_empty());
    let a = first[0].as_ref().ok().unwrap();
    let b = second[0].as_ref().ok().unwrap();
    assert_eq!(a.len(), b.len());
    assert_eq!(a[0].title, b[0].title);
    assert_eq!(a[0].published_at, b[0].published_at);
}

#[test]
fn expired_record_is_fetched_again() {
    let body = feed_with(&[("a1", "Tue, 02 Jan 2024 00:00:00 +0000")]);
    let subs = vec![sub("A", "https://one.example/feed", &[])];
    let mut cache = FetchCache::new(600);
    let bodies = [("https://one.example/feed", Some(body.as_str()))];
    let (_, req1) = fetch_all(&subs, &mut cache, &bodies, 100);
    let (second, req2) = fetch_all(&subs, &mut cache, &bodies, 701);
    assert_eq!(req1.len(), 1);
    assert_eq!(req2.len(), 1);
    assert!(second[0].is_ok());
}

#[test]
fn cache_get_and_put() {
    let mut cache = FetchCache::new(10);
    let url = "https://a.example/".to_string();
    assert_eq!(cache.get(&url, 0), None);
    cache.put(url.clone(), "one".to_string(), 5);
    assert_eq!(cache.get(&url, 5), Some("one".to_string()));
    assert_eq!(cache.get(&url, 15), Some("one".to_string()));
    assert_eq!(cache.get(&url, 16), None);
    assert_eq!(cache.get(&"https://a.example".to_string(), 5), None);
    cache.put(url.clone(), "two".to_string(), 20);
    assert_eq!(cache.get(&url, 25), Some("two".to_string()));
    assert_eq!(cache.ttl(), 10);
}

#[test]
fn failed_request_leaves_cache_unchanged() {
    let s = sub("A", "https://one.example/feed", &[]);
    let mut cache = FetchCache::new(600);
    let r = s.finish_fetch(&mut cache, Err(SubscriptionFetchError::Transport("timeout".to_string())), 1);
    match r {
        Err(SubscriptionFetchError::Transport(d)) => assert_eq!(d, "timeout"),
        _ => panic!("expected a transport error"),
    }
    assert_eq!(cache.get(&s.url, 1), None);
}

#[test]
fn body_is_cached_even_when_it_does_not_parse() {
    let s = sub("A", "https://one.example/feed", &[]);
    let mut cache = FetchCache::new(600);
    let r = s.finish_fetch(&mut cache, Ok("garbage".to_string()), 1);
    assert!(matches!(r, Err(SubscriptionFetchError::Format)));
    assert_eq!(cache.get(&s.url, 2), Some("garbage".to_string()));
}

#[test]
fn bad_url_is_a_url_error() {
    let s = sub("A", "::not a url::", &[]);
    let cache = FetchCache::new(600);
    assert!(matches!(s.begin_fetch(&cache, 0), FetchStep::Failed(SubscriptionFetchError::UrlSyntax)));
    let good = sub("B", "https://two.example/feed", &[]);
    match good.begin_fetch(&cache, 0) {
        FetchStep::Request(u) => assert_eq!(u, "https://two.example/feed"),
        _ => panic!("expected a request"),
    }
}

#[test]
fn missing_fields_get_defaults() {
    let body = "<rss version=\"2.0\"><channel><title>T</title><link>l</link><description>d</description>\
        <item><link>https://e.example/1</link><pubDate>not a date</pubDate></item>\
        <item><title>second</title></item></channel></rss>"
        .to_string();
    let entries = parse_entries(&body).ok().unwrap();
    assert_eq!(entries.len(), 2);
    assert_eq!(entries[0].title, "NO TITLE");
    assert_eq!(entries[0].link, "https://e.example/1");
    assert_eq!(entries[0].published_at, None);
    assert_eq!(entries[0].raw_date, Some("not a date".to_string()));
    assert_eq!(entries[1].title, "second");
    assert_eq!(entries[1].link, "");
    assert_eq!(entries[1].raw_date, None);
}

#[test]
fn non_feed_body_is_a_format_error() {
    assert!(matches!(parse_entries(&"{\"json\": true}".to_string()), Err(SubscriptionFetchError::Format)));
}

#[test]
fn rfc2822_dates_parse_to_instants() {
    assert_eq!(parse_published(&Some("Tue, 02 Jan 2024 00:00:00 +0000".to_string())), Some(JAN_02_2024));
    assert_eq!(parse_published(&Some("Tue, 02 Jan 2024 01:00:00 +0100".to_string())), Some(JAN_02_2024));
    assert_eq!(parse_published(&Some("2024-01-02".to_string())), None);
    assert_eq!(parse_published(&None), None);
    let e = FeedEntry::from_fields(None, None, Some("Fri, 05 Jan 2024 00:00:00 GMT".to_string()));
    assert_eq!(e.published_at, Some(JAN_05_2024));
    assert_eq!(e.title, "NO TITLE");
}

#[test]
fn sort_orders_newest_first() {
    let items = vec![item("A", "t2", Some(20)), item("A", "t3", Some(30)), item("B", "t1", Some(10))];
    let sorted = sort_newest_first(items);
    let titles: Vec<String> = sorted.iter().map(|i| i.entry.title.clone()).collect();
    assert_eq!(titles, vec!["t3", "t2", "t1"]);
}

#[test]
fn sort_puts_missing_times_last_in_input_order() {
    let items = vec![
        item("A", "n1", None),
        item("A", "old", Some(1)),
        item("B", "n2", None),
        item("B", "new", Some(9)),
        item("C", "n3", None),
    ];
    let sorted = sort_newest_first(items);
    let titles: Vec<String> = sorted.iter().map(|i| i.entry.title.clone()).collect();
    assert_eq!(titles, vec!["new", "old", "n1", "n2", "n3"]);
}

#[test]
fn sort_is_stable_for_equal_times() {
    let items = vec![item("A", "a", Some(5)), item("B", "b", Some(7)), item("C", "c", Some(5)), item("D", "d", Some(5))];
    let sorted = sort_newest_first(items);
    let titles: Vec<String> = sorted.iter().map(|i| i.entry.title.clone()).collect();
    assert_eq!(titles, vec!["b", "a", "c", "d"]);
    assert!(sort_newest_first(Vec::new()).is_empty());
}

#[test]
fn newer_or_same_ordering() {
    assert!(is_newer_or_same(Some(2), Some(1)));
    assert!(is_newer_or_same(Some(1), Some(1)));
    assert!(!is_newer_or_same(Some(1), Some(2)));
    assert!(is_newer_or_same(Some(i64::MIN), None));
    assert!(!is_newer_or_same(None, Some(i64::MIN)));
    assert!(is_newer_or_same(None, None));
}

#[test]
fn tag_filter_keeps_order_and_matches() {
    let subs = vec![sub("A", "u1", &["x", "z"]), sub("B", "u2", &["y"]), sub("C", "u3", &["z"]), sub("D", "u4", &[])];
    let kept = filter_subscriptions(subs, &Some(vec!["z".to_string(), "q".to_string()]));
    let names: Vec<String> = kept.iter().map(|s| s.name.clone()).collect();
    assert_eq!(names, vec!["A", "C"]);
}

#[test]
fn tag_filter_absent_and_empty() {
    let subs = vec![sub("A", "u1", &["x"]), sub("B", "u2", &["y"])];
    let all = filter_subscriptions(subs, &None);
    assert_eq!(all.len(), 2);
    assert_eq!(all[0].name, "A");
    assert_eq!(all[1].name, "B");
    let none = filter_subscriptions(all, &Some(Vec::new()));
    assert!(none.is_empty());
}

#[test]
fn subscription_tag_checks() {
    let s = sub("A", "u1", &["rust", "news"]);
    assert!(s.has_any_tag(&vec!["news".to_string()]));
    assert!(!s.has_any_tag(&vec!["News".to_string()]));
    assert!(s.is_allowed(&None));
    assert!(!s.is_allowed(&Some(vec![])));
    let d = s.duplicate();
    assert_eq!(d.name, "A");
    assert_eq!(d.url, "u1");
    assert_eq!(d.tags, vec!["rust".to_string(), "news".to_string()]);
}

#[test]
fn vocabulary_lists_each_tag_once() {
    let subs = vec![sub("A", "u1", &["x", "y"]), sub("B", "u2", &["y", "z", "x"]), sub("C", "u3", &["w"])];
    assert_eq!(tag_vocabulary(&subs), vec!["x", "y", "z", "w"]);
    assert!(tag_vocabulary(&Vec::new()).is_empty());
}
