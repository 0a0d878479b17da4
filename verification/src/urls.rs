//! URLs, through the `url` crate. The library keeps a URL as the string that
//! `Url` serialises it to; each call below reads such a string back with
//! `Url::parse` before it asks `Url` anything.
use vstd::prelude::*;
use url::{ParseError, Url};

verus! {

#[verifier::external_type_specification]
#[verifier::external_body]
pub struct ExUrlParseError(ParseError);

/// What `Url::join` gives for `href` against the URL `base` (serialised), or
/// `None` where `base` does not parse or the join fails.
pub uninterp spec fn url_join(base: Seq<char>, href: Seq<char>) -> Option<Seq<char>>;

/// The scheme that `Url::scheme` reports for `url`, or `None` where `url` does not parse.
pub uninterp spec fn url_scheme(url: Seq<char>) -> Option<Seq<char>>;

/// The URL `url` after `query_pairs_mut().append_pair(key, value)`, or `None`
/// where `url` does not parse.
pub uninterp spec fn url_with_pair(url: Seq<char>, key: Seq<char>, value: Seq<char>) -> Option<
    Seq<char>,
>;

/// Resolves `href` against `base` (`Url::parse` of `base`, then `Url::join`),
/// serialised; `None` where either fails.
#[verifier::external_body]
pub(crate) fn join_url(base: &str, href: &str) -> (r: Option<String>)
    ensures
        r.deep_view() == url_join(base@, href@),
{
    Url::parse(base).ok()?.join(href).ok().map(String::from)
}

/// The scheme of `url` (`Url::parse`, then `Url::scheme`); `None` where it does not parse.
#[verifier::external_body]
pub(crate) fn scheme_of(url: &str) -> (r: Option<String>)
    ensures
        r.deep_view() == url_scheme(url@),
{
    Url::parse(url).ok().map(|u| u.scheme().to_string())
}

/// `url` with the pair `key=value` appended to its query
/// (`Url::parse`, then `query_pairs_mut().append_pair`), serialised; the
/// error of `Url::parse` where `url` does not parse.
#[verifier::external_body]
pub(crate) fn with_query_pair(url: &str, key: &str, value: &str) -> (r: Result<String, ParseError>)
    ensures
        r is Ok <==> url_with_pair(url@, key@, value@) is Some,
        r matches Ok(s) ==> url_with_pair(url@, key@, value@) == Some(s@),
{
    let mut u = Url::parse(url)?;
    u.query_pairs_mut().append_pair(key, value);
    Ok(u.into())
}

} // verus!
