//! A fetched page.
use vstd::prelude::*;

use crate::parser::{extract_links, extract_title, links_in, title_of};
use crate::text::{concat_text, decimal, decimal_string};

verus! {

/// The reason phrase that `http` gives for the status code `code`
/// (`StatusCode::from_u16`, then `canonical_reason`), or `None`.
pub uninterp spec fn status_reason(code: u16) -> Option<Seq<char>>;

/// The reason phrase of `code`: `StatusCode::from_u16`, then
/// `StatusCode::canonical_reason`; `None` where `code` is not a status code
/// (outside 100..=999) or has no standard phrase.
#[verifier::external_body]
fn canonical_reason(code: u16) -> (r: Option<String>)
    ensures
        r.deep_view() == status_reason(code),
{
    reqwest::StatusCode::from_u16(code).ok().and_then(|s| s.canonical_reason()).map(String::from)
}

/// How a status is shown: its number, a space, and its reason phrase.
pub open spec fn status_line(code: u16) -> Seq<char> {
    decimal(code as nat) + " "@ + match status_reason(code) {
        Some(r) => r,
        None => "<unknown status code>"@,
    }
}

/// Whether `code` reports success (200..=299).
pub open spec fn is_success_status(code: u16) -> bool {
    200 <= code < 300
}

/// A page as fetched: the URL it was finally read from (after redirects,
/// serialised), the HTTP status code, and the body.
#[derive(Debug, Clone)]
pub struct Page {
    pub url: String,
    pub status: u16,
    pub body: String,
}

impl Page {
    pub fn new(url: String, status: u16, body: String) -> (p: Page)
        ensures
            p.url == url,
            p.status == status,
            p.body == body,
    {
        Page { url, status, body }
    }

    /// The text of the page's `title` element, trimmed, where not blank.
    pub fn title(&self) -> (r: Option<String>)
        ensures
            r.deep_view() == title_of(self.body@),
    {
        extract_title(self.body.as_str())
    }

    /// The page's web links, resolved against the page's URL.
    pub fn links(&self) -> (r: Vec<String>)
        ensures
            r.deep_view() == links_in(self.url@, self.body@),
    {
        extract_links(self.url.as_str(), self.body.as_str())
    }

    /// Whether the status reports success.
    pub fn is_success(&self) -> (r: bool)
        ensures
            r == is_success_status(self.status),
    {
        200 <= self.status && self.status < 300
    }

    /// The status as `Display` shows it, such as `404 Not Found`.
    pub fn status_text(&self) -> (r: String)
        ensures
            r@ == status_line(self.status),
    {
        let number = decimal_string(self.status as u64);
        let with_space = concat_text(number.as_str(), " ");
        let reason = match canonical_reason(self.status) {
            Some(r) => r,
            None => "<unknown status code>".to_owned(),
        };
        concat_text(with_space.as_str(), reason.as_str())
    }
}

} // verus!
