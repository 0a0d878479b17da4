//! What the HTTP client of the crawler is built with.
use vstd::prelude::*;

use crate::config::CrawlerConfig;

verus! {

/// The `Accept` header that every request carries.
pub open spec fn accept_header() -> Seq<char> {
    "text/html,application/xhtml+xml,application/xml;q=0.9,*/*;q=0.8"@
}

/// The `Accept-Language` header that every request carries.
pub open spec fn accept_language_header() -> Seq<char> {
    "zh-CN,zh;q=0.9,en;q=0.8"@
}

/// The settings of the HTTP client that a crawler uses.
#[derive(Debug, Clone)]
pub struct ClientSettings {
    /// The `User-Agent` header.
    pub user_agent: String,
    /// The `Accept` header.
    pub accept: String,
    /// The `Accept-Language` header.
    pub accept_language: String,
    /// How long one request may take, in seconds.
    pub timeout_secs: u64,
    /// How many redirects one request may follow.
    pub max_redirects: usize,
    /// Whether the system's proxy settings are used.
    pub use_proxy: bool,
}

/// The client settings for `config`: its user agent and timeout, browser-like
/// `Accept` headers, at most ten redirects, and no proxy.
pub fn client_settings(config: CrawlerConfig) -> (s: ClientSettings)
    ensures
        s.user_agent@ == config.user_agent@,
        s.accept@ == accept_header(),
        s.accept_language@ == accept_language_header(),
        s.timeout_secs == config.request_timeout_secs,
        s.max_redirects == 10,
        !s.use_proxy,
{
    ClientSettings {
        user_agent: config.user_agent,
        accept: "text/html,application/xhtml+xml,application/xml;q=0.9,*/*;q=0.8".to_owned(),
        accept_language: "zh-CN,zh;q=0.9,en;q=0.8".to_owned(),
        timeout_secs: config.request_timeout_secs,
        max_redirects: 10,
        use_proxy: false,
    }
}

} // verus!
