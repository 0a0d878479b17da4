use vstd::prelude::*;
use std::time::Duration;

verus! {

/// The spelling of the default `User-Agent` header.
pub open spec fn default_user_agent() -> Seq<char> {
    seq!['w', 'e', 'b', 'c', 'r', 'a', 'w', 'l', 'e', 'r', '/', '0', '.', '1']
}

/// Settings of a crawler run.
#[derive(Debug, Clone)]
pub struct CrawlerConfig {
    pub user_agent: String,
    pub request_timeout_secs: u64,
    pub max_depth: usize,
}

/// The `Duration` that `Duration::from_secs` builds from a number of whole seconds.
pub uninterp spec fn duration_of_secs(secs: u64) -> Duration;

/// `Duration::from_secs` builds a value of whole seconds; the value is named
/// `duration_of_secs(secs)` since `Duration` is opaque here.
pub assume_specification[ Duration::from_secs ](secs: u64) -> (d: Duration)
    ensures
        d == duration_of_secs(secs),
;

/// `Duration::as_secs` gives back the whole seconds that `Duration::from_secs` was given.
pub assume_specification[ Duration::as_secs ](d: &Duration) -> (secs: u64)
    ensures
        forall|s: u64| *d == duration_of_secs(s) ==> secs == s,
;

impl Default for CrawlerConfig {
    fn default() -> (c: Self)
        ensures
            c.user_agent@ == default_user_agent(),
            c.request_timeout_secs == 15,
            c.max_depth == 1,
    {
        let ua = "webcrawler/0.1";
        proof {
            reveal_strlit("webcrawler/0.1");
        }
        CrawlerConfig { user_agent: ua.to_owned(), request_timeout_secs: 15, max_depth: 1 }
    }
}

impl CrawlerConfig {
    /// How long one request may take.
    pub fn request_timeout(&self) -> (d: Duration)
        ensures
            d == duration_of_secs(self.request_timeout_secs),
    {
        Duration::from_secs(self.request_timeout_secs)
    }
}

} // verus!
