//! Aggregation of syndication feeds into one newest-first sequence: a fetch
//! cache with a freshness window, the per-subscription fetch decisions, feed
//! parsing, tag filtering, fault-isolating aggregation and a stable
//! chronological merge.

use vstd::prelude::*;

pub mod aggregate;
pub mod cache;
pub mod feed;
pub mod fetch;
pub mod merge;
pub mod subscriptions;

verus! {

/// The view of an optional owned string.
pub open spec fn opt_view(o: Option<String>) -> Option<Seq<char>> {
    match o {
        Some(s) => Some(s@),
        None => None,
    }
}

} // verus!
