//! Reading a page's title and links.
use vstd::prelude::*;

use crate::dom::{document_match_count, element_attr, element_texts, selector_parses, Css, Document};
use crate::text::{
    concat_all, concat_texts, is_white, lemma_trimmed_ends, lemma_trimmed_is_middle,
    lemma_trimmed_keeps_clean_text, trim, trimmed,
};
use crate::urls::{join_url, scheme_of, url_join, url_scheme};

verus! {

/// The title of the document parsed from `html`: the text of its first
/// `title` element, trimmed, where that is not empty.
pub open spec fn title_of(html: Seq<char>) -> Option<Seq<char>> {
    if selector_parses("title"@) && document_match_count(html, "title"@) > 0 {
        let t = trimmed(concat_all(element_texts(html, seq![("title"@, 0usize)])));
        if t.len() > 0 {
            Some(t)
        } else {
            None
        }
    } else {
        None
    }
}

/// The text of the first `title` element of `html`, trimmed; `None` where
/// there is none or its text is blank. A title never starts or ends with
/// whitespace.
pub fn extract_title(html: &str) -> (r: Option<String>)
    ensures
        r.deep_view() == title_of(html@),
        r matches Some(t) ==> t@.len() > 0 && !is_white(t@[0]) && !is_white(t@.last()),
{
    let document = Document::parse(html);
    let selector = match Css::parse("title") {
        Some(s) => s,
        None => return None,
    };
    let found = document.select(&selector);
    if found.len() == 0 {
        return None;
    }
    let parts = found[0].texts();
    let all = concat_texts(&parts);
    let title = trim(all.as_str());
    proof {
        lemma_trimmed_ends(concat_all(parts.deep_view()));
    }
    if title.as_str().is_empty() {
        None
    } else {
        Some(title)
    }
}

/// All the text of the first `title` element of `html`, its text nodes one
/// after the other.
pub open spec fn title_text(html: Seq<char>) -> Seq<char> {
    concat_all(element_texts(html, seq![("title"@, 0usize)]))
}

/// What a page's title is: nothing where the page has no `title` element;
/// else nothing exactly when the whole text of the first one is blank, and
/// otherwise that whole text without the whitespace at its two ends: the
/// title sits in the text between a run of whitespace before it and one
/// after it, and starts and ends with a character that is not whitespace.
pub proof fn lemma_title_is_whole_text_trimmed(html: Seq<char>)
    ensures
        !(selector_parses("title"@) && document_match_count(html, "title"@) > 0) ==> title_of(
            html,
        ) is None,
        selector_parses("title"@) && document_match_count(html, "title"@) > 0 ==> {
            let c = title_text(html);
            &&& (title_of(html) is None <==> forall|k: int|
                0 <= k < c.len() ==> is_white(#[trigger] c[k]))
            &&& (title_of(html) matches Some(t) ==> {
                &&& exists|i: int, j: int|
                    #![trigger c.subrange(i, j)]
                    0 <= i <= j <= c.len() && t == c.subrange(i, j) && (forall|k: int|
                        0 <= k < i ==> is_white(#[trigger] c[k])) && (forall|k: int|
                        j <= k < c.len() ==> is_white(#[trigger] c[k]))
                &&& t.len() > 0
                &&& !is_white(t[0])
                &&& !is_white(t.last())
            })
        },
{
    lemma_trimmed_is_middle(title_text(html));
}

/// A title whose text has no whitespace at its ends comes back whole, at
/// any length.
pub proof fn lemma_clean_title_kept(html: Seq<char>)
    requires
        selector_parses("title"@),
        document_match_count(html, "title"@) > 0,
        title_text(html).len() > 0,
        !is_white(title_text(html)[0]),
        !is_white(title_text(html).last()),
    ensures
        title_of(html) == Some(title_text(html)),
{
    lemma_trimmed_keeps_clean_text(title_text(html));
}

/// Whether the URL `u` has the scheme `http` or `https`.
pub open spec fn is_web_url(u: Seq<char>) -> bool {
    url_scheme(u) == Some("http"@) || url_scheme(u) == Some("https"@)
}

/// The link that the `i`-th `a[href]` element of `html` gives against `base`:
/// its `href` resolved against `base`, where that succeeds and is a web URL.
pub open spec fn link_of(base: Seq<char>, html: Seq<char>, i: nat) -> Option<Seq<char>> {
    match element_attr(html, seq![("a[href]"@, i as usize)], "href"@) {
        Some(href) => match url_join(base, href) {
            Some(u) => if is_web_url(u) {
                Some(u)
            } else {
                None
            },
            None => None,
        },
        None => None,
    }
}

/// The links of the first `n` `a[href]` elements of `html`, in order.
pub open spec fn links_upto(base: Seq<char>, html: Seq<char>, n: nat) -> Seq<Seq<char>>
    decreases n,
{
    if n == 0 {
        seq![]
    } else {
        let rest = links_upto(base, html, (n - 1) as nat);
        match link_of(base, html, (n - 1) as nat) {
            Some(u) => rest.push(u),
            None => rest,
        }
    }
}

/// The links of the document parsed from `html`, resolved against `base`.
pub open spec fn links_in(base: Seq<char>, html: Seq<char>) -> Seq<Seq<char>> {
    if selector_parses("a[href]"@) {
        links_upto(base, html, document_match_count(html, "a[href]"@))
    } else {
        seq![]
    }
}

/// The `i`-th `a[href]` element of `html` has an `href` that resolves
/// against `base` to a web URL.
pub open spec fn gives_web_link(base: Seq<char>, html: Seq<char>, i: nat) -> bool {
    match element_attr(html, seq![("a[href]"@, i as usize)], "href"@) {
        Some(href) => match url_join(base, href) {
            Some(u) => is_web_url(u),
            None => false,
        },
        None => false,
    }
}

/// The web URL that the `i`-th `a[href]` element resolves to.
pub open spec fn web_link(base: Seq<char>, html: Seq<char>, i: nat) -> Seq<char> {
    url_join(base, element_attr(html, seq![("a[href]"@, i as usize)], "href"@)->0)->0
}

/// How many of the first `n` `a[href]` elements give a web link.
pub open spec fn web_links_before(base: Seq<char>, html: Seq<char>, n: nat) -> nat
    decreases n,
{
    if n == 0 {
        0
    } else {
        web_links_before(base, html, (n - 1) as nat) + if gives_web_link(base, html, (n - 1) as nat) {
            1nat
        } else {
            0nat
        }
    }
}

proof fn lemma_links_upto(base: Seq<char>, html: Seq<char>, n: nat)
    ensures
        links_upto(base, html, n).len() == web_links_before(base, html, n),
        forall|i: nat|
            i < n && gives_web_link(base, html, i) ==> #[trigger] web_links_before(base, html, i)
                < links_upto(base, html, n).len() && links_upto(base, html, n)[web_links_before(
                base,
                html,
                i,
            ) as int] == web_link(base, html, i),
    decreases n,
{
    if n > 0 {
        let m = (n - 1) as nat;
        lemma_links_upto(base, html, m);
        assert forall|i: nat|
            i < n && gives_web_link(base, html, i) implies #[trigger] web_links_before(base, html, i)
            < links_upto(base, html, n).len() && links_upto(base, html, n)[web_links_before(
            base,
            html,
            i,
        ) as int] == web_link(base, html, i) by {
            if i < m {
                assert(web_links_before(base, html, i) < links_upto(base, html, m).len());
            }
        }
    }
}

/// Every `a[href]` element whose `href` resolves against the base to an
/// `http` or `https` URL gives that URL, in the order of the elements:
/// the links are exactly one per such element, the one of the `i`-th
/// element coming after those of the elements before it.
pub proof fn lemma_links_complete(base: Seq<char>, html: Seq<char>, i: nat)
    requires
        selector_parses("a[href]"@),
        i < document_match_count(html, "a[href]"@),
        gives_web_link(base, html, i),
    ensures
        links_in(base, html).len() == web_links_before(
            base,
            html,
            document_match_count(html, "a[href]"@),
        ),
        web_links_before(base, html, i) < links_in(base, html).len(),
        links_in(base, html)[web_links_before(base, html, i) as int] == web_link(base, html, i),
{
    lemma_links_upto(base, html, document_match_count(html, "a[href]"@));
}

fn web_scheme(u: &str) -> (r: bool)
    ensures
        r == is_web_url(u@),
{
    match scheme_of(u) {
        Some(s) => {
            let http = s == "http".to_owned();
            let https = s == "https".to_owned();
            http || https
        },
        None => false,
    }
}

/// The `href` of every `a` element of `html` that has one, resolved against
/// `base_url`, in the order `Html::select` gives the elements (the order in
/// which the parser created them), keeping only those that resolve to an
/// `http` or `https` URL.
pub fn extract_links(base_url: &str, html: &str) -> (r: Vec<String>)
    ensures
        r.deep_view() == links_in(base_url@, html@),
        forall|i: int| 0 <= i < r.len() ==> is_web_url(#[trigger] r[i]@),
{
    let document = Document::parse(html);
    let selector = match Css::parse("a[href]") {
        Some(s) => s,
        None => return Vec::new(),
    };
    let found = document.select(&selector);
    let mut out: Vec<String> = Vec::new();
    let mut i: usize = 0;
    while i < found.len()
        invariant
            i <= found.len(),
            found.len() == document_match_count(html@, "a[href]"@),
            forall|j: int|
                0 <= j < found.len() ==> (#[trigger] found[j]).source() == html@ && found[j].address()
                    == seq![("a[href]"@, j as usize)],
            out.deep_view() == links_upto(base_url@, html@, i as nat),
            forall|j: int| 0 <= j < out.len() ==> is_web_url(#[trigger] out[j]@),
        decreases found.len() - i,
    {
        let ghost before = out.deep_view();
        let element = &found[i];
        proof {
            assert(element.address() == seq![("a[href]"@, i)]);
        }
        if let Some(href) = element.attr("href") {
            if let Some(u) = join_url(base_url, href.as_str()) {
                if web_scheme(u.as_str()) {
                    out.push(u);
                    proof {
                        assert(out.deep_view() =~= before.push(out[out.len() - 1]@));
                    }
                }
            }
        }
        i = i + 1;
    }
    out
}

} // verus!
