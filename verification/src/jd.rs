//! Looking up the JD price of each book of a list.
use vstd::prelude::*;

use crate::crawler::page::{is_success_status, status_line, Page};
use crate::dom::{
    attr_of_first, document_match_count, element_attr, first_attr, first_text, selector_parses,
    Css, Document, Element,
};
use crate::douban::{or_empty, text_of, DoubanBook};
use crate::error::CrawlerError;
use crate::text::{concat_text, contains, has_infix, has_prefix, starts_with, trim, trimmed};
use crate::urls::{url_with_pair, with_query_pair};

verus! {

/// JD's search page.
pub open spec fn jd_search_url() -> Seq<char> {
    "https://search.jd.com/Search"@
}

/// JD's price service.
pub open spec fn jd_price_url() -> Seq<char> {
    "https://p.3.cn/prices/mgets"@
}

/// What was found on JD for one book of the list: the search made, and the
/// item found or the error met.
#[derive(Debug, Clone)]
pub struct JdBookPriceResult {
    pub rank: usize,
    pub douban_title: String,
    pub douban_publish_info: String,
    pub search_url: String,
    pub item: Option<JdSearchItem>,
    pub error: Option<String>,
}

/// An item of JD's search results.
#[derive(Debug, Clone)]
pub struct JdSearchItem {
    pub sku: String,
    pub title: String,
    pub shop: Option<String>,
    pub item_url: String,
    pub price: Option<String>,
}

/// One entry of the price service's answer: the key of the item
/// (`J_` and its SKU) and its price (`-1` where it has none).
#[derive(Debug, Clone)]
pub struct JdPrice {
    pub id: String,
    pub p: String,
}

/// A search item over mathematical strings.
pub struct SearchRecord {
    pub sku: Seq<char>,
    pub title: Seq<char>,
    pub shop: Option<Seq<char>>,
    pub item_url: Seq<char>,
    pub price: Option<Seq<char>>,
}

impl DeepView for JdSearchItem {
    type V = SearchRecord;

    open spec fn deep_view(&self) -> SearchRecord {
        SearchRecord {
            sku: self.sku@,
            title: self.title@,
            shop: self.shop.deep_view(),
            item_url: self.item_url@,
            price: self.price.deep_view(),
        }
    }
}

impl DeepView for JdPrice {
    type V = (Seq<char>, Seq<char>);

    open spec fn deep_view(&self) -> (Seq<char>, Seq<char>) {
        (self.id@, self.p@)
    }
}

// ---------------------------------------------------------------------------
// Item links
// ---------------------------------------------------------------------------

/// An item link of the search page made absolute: `//host/...` gets the
/// scheme `https:`, `/path` gets `https://item.jd.com`, anything else stays.
pub open spec fn jd_url(url: Seq<char>) -> Seq<char> {
    if has_prefix(url, "//"@) {
        "https:"@ + url
    } else if has_prefix(url, "/"@) {
        "https://item.jd.com"@ + url
    } else {
        url
    }
}

/// Makes an item link of the search page absolute.
pub fn normalize_jd_url(url: &str) -> (r: String)
    ensures
        r@ == jd_url(url@),
        has_prefix(url@, "/"@) ==> has_prefix(r@, "https://"@),
{
    proof {
        reveal_strlit("//");
        reveal_strlit("/");
        reveal_strlit("https:");
        reveal_strlit("https://");
        reveal_strlit("https://item.jd.com");
    }
    if starts_with(url, "//") {
        let r = concat_text("https:", url);
        proof {
            assert(url@.take(2)[0] == url@[0] && url@.take(2)[1] == url@[1]);
            assert(r@.take(8) =~= "https://"@);
        }
        r
    } else if starts_with(url, "/") {
        let r = concat_text("https://item.jd.com", url);
        proof {
            assert(r@.take(8) =~= "https://"@);
        }
        r
    } else {
        proof {
            if has_prefix(url@, "/"@) {
                assert(url@.len() >= 1 && url@[0] == '/');
                if url@.len() >= 2 && url@[1] == '/' {
                    assert(url@.take(2) =~= "//"@);
                }
                assert(url@.take(1) =~= "/"@);
            }
        }
        url.to_owned()
    }
}

// ---------------------------------------------------------------------------
// Search results
// ---------------------------------------------------------------------------

/// The link of an item whose SKU is `sku` where the page gives none.
pub open spec fn default_item_url(sku: Seq<char>) -> Seq<char> {
    "https://item.jd.com/"@ + sku + ".html"@
}

/// The search item that the element at `at` describes: it needs a
/// `data-sku` attribute that is not blank.
pub open spec fn search_item_at(html: Seq<char>, at: Seq<(Seq<char>, usize)>) -> Option<
    SearchRecord,
> {
    match element_attr(html, at, "data-sku"@) {
        None => None,
        Some(raw) => {
            let sku = trimmed(raw);
            if sku.len() == 0 {
                None
            } else {
                Some(
                    SearchRecord {
                        sku,
                        title: match first_text(html, at, ".p-name em"@) {
                            Some(t) => t,
                            None => or_empty(first_text(html, at, ".p-name a"@)),
                        },
                        shop: match first_text(html, at, ".p-shop a"@) {
                            Some(t) => Some(t),
                            None => first_text(html, at, ".p-shop"@),
                        },
                        item_url: match first_attr(html, at, ".p-name a"@, "href"@) {
                            Some(h) => jd_url(h),
                            None => default_item_url(sku),
                        },
                        price: None,
                    },
                )
            }
        },
    }
}

/// Reads one item of JD's search results; it has no price yet.
pub(crate) fn parse_search_item(item: &Element) -> (r: Option<JdSearchItem>)
    ensures
        r.deep_view() == search_item_at(item.source(), item.address()),
{
    let raw = match item.attr("data-sku") {
        Some(s) => s,
        None => return None,
    };
    let sku = trim(raw.as_str());
    if sku.as_str().is_empty() {
        return None;
    }
    let title = match text_of(item, ".p-name em") {
        Some(t) => t,
        None => match text_of(item, ".p-name a") {
            Some(t) => t,
            None => String::new(),
        },
    };
    let shop = match text_of(item, ".p-shop a") {
        Some(t) => Some(t),
        None => text_of(item, ".p-shop"),
    };
    let item_url = match attr_of_first(item, ".p-name a", "href") {
        Some(h) => normalize_jd_url(h.as_str()),
        None => {
            let a = concat_text("https://item.jd.com/", sku.as_str());
            concat_text(a.as_str(), ".html")
        },
    };
    Some(JdSearchItem { sku, title, shop, item_url, price: None })
}

/// The first search item among the elements at positions `i..n` of the
/// `li.gl-item` elements of `html`.
pub open spec fn first_item_from(html: Seq<char>, i: nat, n: nat) -> Option<SearchRecord>
    decreases n - i,
{
    if i >= n {
        None
    } else {
        match search_item_at(html, seq![("li.gl-item"@, i as usize)]) {
            Some(x) => Some(x),
            None => first_item_from(html, i + 1, n),
        }
    }
}

/// The first search item of the search page `html`.
pub open spec fn first_search_item(html: Seq<char>) -> Option<SearchRecord> {
    if selector_parses("li.gl-item"@) {
        first_item_from(html, 0, document_match_count(html, "li.gl-item"@))
    } else {
        None
    }
}

/// The first item of JD's search page `html` that can be read as a search
/// item; `None` where there is none.
pub fn parse_first_search_item(html: &str) -> (r: Option<JdSearchItem>)
    ensures
        r.deep_view() == first_search_item(html@),
{
    let document = Document::parse(html);
    let selector = match Css::parse("li.gl-item") {
        Some(s) => s,
        None => return None,
    };
    let items = document.select(&selector);
    let ghost n = items.len() as nat;
    let mut i: usize = 0;
    while i < items.len()
        invariant
            i <= items.len(),
            n == items.len(),
            selector_parses("li.gl-item"@),
            items.len() == document_match_count(html@, "li.gl-item"@),
            forall|j: int|
                0 <= j < items.len() ==> (#[trigger] items[j]).source() == html@ && items[j].address()
                    == seq![("li.gl-item"@, j as usize)],
            first_item_from(html@, 0, n) == first_item_from(html@, i as nat, n),
        decreases items.len() - i,
    {
        let found = parse_search_item(&items[i]);
        proof {
            assert(items[i as int].address() == seq![("li.gl-item"@, i)]);
            assert(found.deep_view() == search_item_at(html@, seq![("li.gl-item"@, (i as nat) as usize)]));
        }
        if found.is_some() {
            proof {
                assert(first_item_from(html@, i as nat, n) == found.deep_view());
            }
            return found;
        }
        i = i + 1;
    }
    None
}

/// The address of the `i`-th item of a search page.
pub open spec fn search_item(i: nat) -> Seq<(Seq<char>, usize)> {
    seq![("li.gl-item"@, i as usize)]
}

/// The element at `at` has a `data-sku` attribute that is not blank.
pub open spec fn has_sku(html: Seq<char>, at: Seq<(Seq<char>, usize)>) -> bool {
    element_attr(html, at, "data-sku"@) matches Some(raw) && trimmed(raw).len() > 0
}

/// The search item `x` carries what the element at `at` shows: its SKU
/// trimmed; as title the text of its name's `em`, or where that is missing
/// or blank the text of its name link, or else nothing; its shop; its link
/// made absolute, or the item page of its SKU; and no price yet.
pub open spec fn search_item_shows(html: Seq<char>, at: Seq<(Seq<char>, usize)>, x: SearchRecord) -> bool {
    &&& element_attr(html, at, "data-sku"@) matches Some(raw) && x.sku == trimmed(raw)
    &&& match first_text(html, at, ".p-name em"@) {
        Some(e) => x.title == e,
        None => match first_text(html, at, ".p-name a"@) {
            Some(a) => x.title == a,
            None => x.title.len() == 0,
        },
    }
    &&& match first_text(html, at, ".p-shop a"@) {
        Some(shop) => x.shop == Some(shop),
        None => x.shop == first_text(html, at, ".p-shop"@),
    }
    &&& match first_attr(html, at, ".p-name a"@, "href"@) {
        Some(h) => x.item_url == jd_url(h),
        None => x.item_url == "https://item.jd.com/"@ + x.sku + ".html"@,
    }
    &&& x.price is None
}

/// An element is read as a search item exactly when it has a SKU, and the
/// item then carries what the element shows; in particular, an item whose
/// name has no `em` text takes the text of its name link as its title.
pub proof fn lemma_search_item_reads_element(html: Seq<char>, at: Seq<(Seq<char>, usize)>)
    ensures
        search_item_at(html, at) is Some <==> has_sku(html, at),
        search_item_at(html, at) matches Some(x) ==> search_item_shows(html, at, x),
{
}

proof fn lemma_first_item_from(html: Seq<char>, k: nat, i: nat, n: nat)
    requires
        k <= i < n,
        has_sku(html, search_item(i)),
        forall|j: nat| k <= j < i ==> !has_sku(html, #[trigger] search_item(j)),
    ensures
        first_item_from(html, k, n) == search_item_at(html, search_item(i)),
    decreases i - k,
{
    assert(search_item(k) == seq![("li.gl-item"@, k as usize)]);
    if k < i {
        assert(!has_sku(html, search_item(k)));
        lemma_first_item_from(html, k + 1, i, n);
    }
}

proof fn lemma_no_item_from(html: Seq<char>, k: nat, n: nat)
    requires
        k <= n,
        forall|j: nat| k <= j < n ==> !has_sku(html, #[trigger] search_item(j)),
    ensures
        first_item_from(html, k, n) is None,
    decreases n - k,
{
    if k < n {
        assert(search_item(k) == seq![("li.gl-item"@, k as usize)]);
        assert(!has_sku(html, search_item(k)));
        lemma_no_item_from(html, k + 1, n);
    }
}

/// The first search item of a page is read from the first item element
/// that has a SKU, and carries what that element shows; a page whose items
/// all lack a SKU has none.
pub proof fn lemma_first_search_item(html: Seq<char>, i: nat)
    requires
        selector_parses("li.gl-item"@),
        i < document_match_count(html, "li.gl-item"@),
        has_sku(html, search_item(i)),
        forall|j: nat| j < i ==> !has_sku(html, #[trigger] search_item(j)),
    ensures
        first_search_item(html) matches Some(x) && search_item_shows(html, search_item(i), x),
{
    lemma_first_item_from(html, 0, i, document_match_count(html, "li.gl-item"@));
    lemma_search_item_reads_element(html, search_item(i));
}

/// A search page none of whose items has a SKU yields no item.
pub proof fn lemma_no_search_item(html: Seq<char>)
    requires
        forall|j: nat|
            j < document_match_count(html, "li.gl-item"@) ==> !has_sku(
                html,
                #[trigger] search_item(j),
            ),
    ensures
        first_search_item(html) is None,
{
    lemma_no_item_from(html, 0, document_match_count(html, "li.gl-item"@));
}

// ---------------------------------------------------------------------------
// Prices
// ---------------------------------------------------------------------------

/// The key of the item with SKU `sku` in the price service's answer.
pub open spec fn price_key(sku: Seq<char>) -> Seq<char> {
    "J_"@ + sku
}

/// The price of the first entry from position `i` on whose key is `key`,
/// unless that price is `-1`.
pub open spec fn price_from(prices: Seq<(Seq<char>, Seq<char>)>, key: Seq<char>, i: nat) -> Option<
    Seq<char>,
>
    decreases prices.len() - i,
{
    if i >= prices.len() {
        None
    } else if prices[i as int].0 == key {
        if prices[i as int].1 == "-1"@ {
            None
        } else {
            Some(prices[i as int].1)
        }
    } else {
        price_from(prices, key, i + 1)
    }
}

/// The price that the answer `prices` gives the item with SKU `sku`.
pub open spec fn price_of(prices: Seq<(Seq<char>, Seq<char>)>, sku: Seq<char>) -> Option<
    Seq<char>,
> {
    price_from(prices, price_key(sku), 0)
}

proof fn lemma_price_from(prices: Seq<(Seq<char>, Seq<char>)>, key: Seq<char>, k: nat)
    requires
        k <= prices.len(),
    ensures
        price_from(prices, key, k) matches Some(p) ==> exists|i: int|
            k <= i < prices.len() && #[trigger] prices[i] == (key, p) && p != "-1"@ && forall|j: int|
                k <= j < i ==> prices[j].0 != key,
        price_from(prices, key, k) is None ==> forall|i: int|
            k <= i < prices.len() && #[trigger] prices[i].0 == key ==> exists|j: int|
                k <= j <= i && prices[j].0 == key && prices[j].1 == "-1"@,
    decreases prices.len() - k,
{
    if k < prices.len() {
        lemma_price_from(prices, key, k + 1);
        if prices[k as int].0 == key {
            if prices[k as int].1 != "-1"@ {
                assert(prices[k as int] == (key, prices[k as int].1));
            }
        } else {
            if let Some(p) = price_from(prices, key, k) {
                let i = choose|i: int|
                    k + 1 <= i < prices.len() && #[trigger] prices[i] == (key, p) && p != "-1"@
                        && forall|j: int| k + 1 <= j < i ==> prices[j].0 != key;
                assert(prices[i] == (key, p));
            }
        }
    }
}

/// The price given to an item is that of the first entry whose key is
/// `J_<sku>`, and never `-1`; there is no price exactly when no entry has
/// that key or the first that has it carries `-1`.
pub proof fn lemma_price_is_first_match(prices: Seq<(Seq<char>, Seq<char>)>, sku: Seq<char>)
    ensures
        price_of(prices, sku) matches Some(p) ==> p != "-1"@ && exists|i: int|
            0 <= i < prices.len() && #[trigger] prices[i] == (price_key(sku), p) && forall|j: int|
                0 <= j < i ==> prices[j].0 != price_key(sku),
        price_of(prices, sku) is None ==> forall|i: int|
            0 <= i < prices.len() && #[trigger] prices[i].0 == price_key(sku) ==> exists|j: int|
                0 <= j <= i && prices[j].0 == price_key(sku) && prices[j].1 == "-1"@,
{
    lemma_price_from(prices, price_key(sku), 0);
}

/// Making a link absolute only puts something in front of it: the link
/// stays the end of the result; a link that starts with `/` becomes an
/// `https://` link, and any other is left as it is.
pub proof fn lemma_jd_url_prefixes(url: Seq<char>)
    ensures
        exists|p: Seq<char>| #[trigger] (p + url) == jd_url(url),
        has_prefix(url, "/"@) ==> has_prefix(jd_url(url), "https://"@),
        !has_prefix(url, "/"@) ==> jd_url(url) == url,
{
    reveal_strlit("//");
    reveal_strlit("/");
    reveal_strlit("https:");
    reveal_strlit("https://");
    reveal_strlit("https://item.jd.com");
    if has_prefix(url, "//"@) {
        assert(("https:"@ + url) == jd_url(url));
        assert(url.take(2)[0] == url[0] && url.take(2)[1] == url[1]);
        assert("//"@[0] == '/');
        assert(url.take(1) =~= "/"@);
        assert(has_prefix(url, "/"@));
        assert(jd_url(url).take(8) =~= "https://"@);
    } else if has_prefix(url, "/"@) {
        assert(("https://item.jd.com"@ + url) == jd_url(url));
        assert(jd_url(url).take(8) =~= "https://"@);
    } else {
        assert((Seq::<char>::empty() + url) =~= jd_url(url));
    }
}

/// The price of the item with SKU `sku` in the price service's answer: that
/// of the first entry whose key is `J_<sku>`; `None` where there is no such
/// entry or its price is `-1`.
pub fn select_price(prices: &Vec<JdPrice>, sku: &str) -> (r: Option<String>)
    ensures
        r.deep_view() == price_of(prices.deep_view(), sku@),
        r matches Some(p) ==> p@ != "-1"@,
{
    let key = concat_text("J_", sku);
    let ghost pv = prices.deep_view();
    let mut i: usize = 0;
    while i < prices.len()
        invariant
            i <= prices.len(),
            pv == prices.deep_view(),
            key@ == price_key(sku@),
            price_from(pv, key@, 0) == price_from(pv, key@, i as nat),
        decreases prices.len() - i,
    {
        let entry = &prices[i];
        proof {
            assert(pv[i as int] == (entry.id@, entry.p@));
        }
        if entry.id == key {
            if entry.p == "-1".to_owned() {
                return None;
            }
            return Some(entry.p.clone());
        }
        i = i + 1;
    }
    None
}

/// The URL of the search for `keyword`, which also names `keyword` as the
/// words searched for.
pub open spec fn search_url_of(keyword: Seq<char>) -> Option<Seq<char>> {
    match url_with_pair(jd_search_url(), "keyword"@, keyword) {
        Some(a) => match url_with_pair(a, "enc"@, "utf-8"@) {
            Some(b) => url_with_pair(b, "wq"@, keyword),
            None => None,
        },
        None => None,
    }
}

/// The URL of JD's search for `keyword`:
/// `https://search.jd.com/Search?keyword=<keyword>&enc=utf-8&wq=<keyword>`,
/// form-encoded.
pub fn build_search_url(keyword: &str) -> (r: Result<String, CrawlerError>)
    ensures
        r is Ok <==> search_url_of(keyword@) is Some,
        r matches Ok(u) ==> search_url_of(keyword@) == Some(u@),
        r matches Err(e) ==> e is Url,
{
    let a = match with_query_pair("https://search.jd.com/Search", "keyword", keyword) {
        Ok(u) => u,
        Err(e) => return Err(CrawlerError::Url(e)),
    };
    let b = match with_query_pair(a.as_str(), "enc", "utf-8") {
        Ok(u) => u,
        Err(e) => return Err(CrawlerError::Url(e)),
    };
    match with_query_pair(b.as_str(), "wq", keyword) {
        Ok(u) => Ok(u),
        Err(e) => Err(CrawlerError::Url(e)),
    }
}

/// The URL at which the price service answers for the item with SKU `sku`.
pub open spec fn price_url_of(sku: Seq<char>) -> Option<Seq<char>> {
    match url_with_pair(jd_price_url(), "skuIds"@, price_key(sku)) {
        Some(a) => url_with_pair(a, "type"@, "1"@),
        None => None,
    }
}

/// The URL at which the price service answers for the item with SKU `sku`:
/// `https://p.3.cn/prices/mgets?skuIds=J_<sku>&type=1`.
pub fn price_url(sku: &str) -> (r: Result<String, CrawlerError>)
    ensures
        r is Ok <==> price_url_of(sku@) is Some,
        r matches Ok(u) ==> price_url_of(sku@) == Some(u@),
        r matches Err(e) ==> e is Url,
{
    let key = concat_text("J_", sku);
    let a = match with_query_pair("https://p.3.cn/prices/mgets", "skuIds", key.as_str()) {
        Ok(u) => u,
        Err(e) => return Err(CrawlerError::Url(e)),
    };
    match with_query_pair(a.as_str(), "type", "1") {
        Ok(u) => Ok(u),
        Err(e) => Err(CrawlerError::Url(e)),
    }
}

// ---------------------------------------------------------------------------
// Steps of one book
// ---------------------------------------------------------------------------

/// The cookie to send to JD, from the raw value of the `JD_COOKIE` setting:
/// the value trimmed, where that is not blank.
pub fn normalize_cookie(raw: Option<String>) -> (r: Option<String>)
    ensures
        match raw {
            Some(v) => if trimmed(v@).len() > 0 {
                r matches Some(c) && c@ == trimmed(v@)
            } else {
                r is None
            },
            None => r is None,
        },
{
    match raw {
        Some(v) => {
            let c = trim(v.as_str());
            if c.as_str().is_empty() {
                None
            } else {
                Some(c)
            }
        },
        None => None,
    }
}

/// Whether `c` may stand in an HTTP header value: a tab, or any character
/// from the space on other than DEL.
pub open spec fn header_char_ok(c: char) -> bool {
    let n = c as u32;
    (n >= 32 && n != 127) || n == 9
}

/// Whether every character of `value` may stand in an HTTP header value.
pub open spec fn header_value_ok(value: Seq<char>) -> bool {
    forall|i: int| 0 <= i < value.len() ==> header_char_ok(#[trigger] value[i])
}

/// Whether `value` may stand in an HTTP header (`HeaderValue::from_str`):
/// `None` where it may, else the text of the error. `from_str` refuses a
/// value exactly when one of its UTF-8 bytes is below 32 and not a tab, or is
/// 127; such bytes are ASCII characters, so this is a condition on the
/// characters. Its error always shows `failed to parse header value`.
#[verifier::external_body]
fn header_value_error(value: &str) -> (r: Option<String>)
    ensures
        r is None <==> header_value_ok(value@),
        r matches Some(e) ==> e@ == "failed to parse header value"@,
{
    reqwest::header::HeaderValue::from_str(value).err().map(|e| e.to_string())
}

/// The extra headers of a request to JD, given the cookie to send, if any.
pub open spec fn jd_headers_of(cookie: Option<Seq<char>>) -> Result<
    Option<Seq<(Seq<char>, Seq<char>)>>,
    Seq<char>,
> {
    match cookie {
        None => Ok(None),
        Some(c) => if header_value_ok(c) {
            Ok(Some(seq![("cookie"@, c), ("referer"@, "https://www.jd.com/"@)]))
        } else {
            Err("invalid JD_COOKIE header value: failed to parse header value"@)
        },
    }
}

/// The extra headers of a request to JD: none where there is no cookie to
/// send (the request goes out plain), else the cookie and the referer
/// `https://www.jd.com/`; an error where the cookie holds a control
/// character other than a tab.
pub fn jd_headers(cookie: Option<String>) -> (r: Result<Option<Vec<(String, String)>>, CrawlerError>)
    ensures
        match jd_headers_of(cookie.deep_view()) {
            Ok(h) => r matches Ok(v) && v.deep_view() == h,
            Err(m) => r matches Err(CrawlerError::Message(e)) && e@ == m,
        },
{
    match cookie {
        None => Ok(None),
        Some(c) => match header_value_error(c.as_str()) {
            Some(problem) => {
                let m = concat_text("invalid JD_COOKIE header value: ", problem.as_str());
                proof {
                    reveal_strlit("invalid JD_COOKIE header value: ");
                    reveal_strlit("failed to parse header value");
                    reveal_strlit("invalid JD_COOKIE header value: failed to parse header value");
                    assert(m@ =~= "invalid JD_COOKIE header value: failed to parse header value"@);
                }
                Err(CrawlerError::Message(m))
            },
            None => {
                let ghost cv = c@;
                let headers = vec![
                    ("cookie".to_owned(), c),
                    ("referer".to_owned(), "https://www.jd.com/".to_owned()),
                ];
                proof {
                    assert(headers.deep_view() =~= seq![
                        ("cookie"@, cv),
                        ("referer"@, "https://www.jd.com/"@),
                    ]);
                }
                Ok(Some(headers))
            },
        },
    }
}

/// The message of a refused JD page: `what`, the status as shown, and the URL.
pub open spec fn jd_failure_message(what: Seq<char>, page: Page) -> Seq<char> {
    what + status_line(page.status) + " "@ + page.url@
}

fn jd_status_failure(what: &str, page: &Page) -> (r: String)
    ensures
        r@ == jd_failure_message(what@, *page),
{
    let status = page.status_text();
    let a = concat_text(what, status.as_str());
    let b = concat_text(a.as_str(), " ");
    concat_text(b.as_str(), page.url.as_str())
}

/// What the search page `page` yields: an error where its status is not a
/// success, or where JD answered with its verification page (a final URL
/// that contains `/risk_handler/`); else its first search item, if any.
pub fn read_search_page(page: &Page) -> (r: Result<Option<JdSearchItem>, CrawlerError>)
    ensures
        !is_success_status(page.status) ==> (r matches Err(CrawlerError::Message(m)) && m@
            == jd_failure_message("jd search request failed: "@, *page)),
        is_success_status(page.status) && has_infix(page.url@, "/risk_handler/"@) ==> (r matches Err(
            CrawlerError::Message(m),
        ) && m@ == "jd search blocked by verification page: "@ + page.url@),
        is_success_status(page.status) && !has_infix(page.url@, "/risk_handler/"@) ==> (r matches Ok(
            item,
        ) && item.deep_view() == first_search_item(page.body@)),
{
    if !page.is_success() {
        return Err(CrawlerError::Message(jd_status_failure("jd search request failed: ", page)));
    }
    if contains(page.url.as_str(), "/risk_handler/") {
        return Err(
            CrawlerError::Message(
                concat_text("jd search blocked by verification page: ", page.url.as_str()),
            ),
        );
    }
    Ok(parse_first_search_item(page.body.as_str()))
}

/// Whether the price page `page` may be read: an error where its status is
/// not a success.
pub fn accept_price_page(page: &Page) -> (r: Result<(), CrawlerError>)
    ensures
        is_success_status(page.status) <==> r is Ok,
        !is_success_status(page.status) ==> (r matches Err(CrawlerError::Message(m)) && m@
            == jd_failure_message("jd price request failed: "@, *page)),
{
    if !page.is_success() {
        return Err(CrawlerError::Message(jd_status_failure("jd price request failed: ", page)));
    }
    Ok(())
}

/// The item found for `book`, with its price set to `price`, and with the
/// book's title where the item had none.
pub fn complete_item(item: JdSearchItem, price: Option<String>, book: &DoubanBook) -> (r:
    JdSearchItem)
    ensures
        r.sku == item.sku,
        r.shop == item.shop,
        r.item_url == item.item_url,
        r.price == price,
        r.title@ == (if item.title@.len() == 0 {
            book.title@
        } else {
            item.title@
        }),
{
    let title = if item.title.as_str().is_empty() {
        book.title.clone()
    } else {
        item.title
    };
    JdSearchItem { sku: item.sku, title, shop: item.shop, item_url: item.item_url, price }
}

/// `r` records, for `book`, the search at `search_url` and its outcome: the
/// item found (or none), or the error's message.
pub open spec fn records(
    r: JdBookPriceResult,
    book: DoubanBook,
    search_url: Seq<char>,
    outcome: Result<Option<JdSearchItem>, String>,
) -> bool {
    &&& r.rank == book.rank
    &&& r.douban_title@ == book.title@
    &&& r.douban_publish_info@ == book.publish_info@
    &&& r.search_url@ == search_url
    &&& match outcome {
        Ok(item) => r.item == item && r.error is None,
        Err(message) => r.item is None && r.error == Some(message),
    }
}

/// The result of one book: the search made at `search_url`, and what it
/// gave, the item found or the message of the error met.
pub fn book_price_result(
    book: &DoubanBook,
    search_url: String,
    outcome: Result<Option<JdSearchItem>, String>,
) -> (r: JdBookPriceResult)
    ensures
        records(r, *book, search_url@, outcome),
{
    match outcome {
        Ok(item) => JdBookPriceResult {
            rank: book.rank,
            douban_title: book.title.clone(),
            douban_publish_info: book.publish_info.clone(),
            search_url,
            item,
            error: None,
        },
        Err(message) => JdBookPriceResult {
            rank: book.rank,
            douban_title: book.title.clone(),
            douban_publish_info: book.publish_info.clone(),
            search_url,
            item: None,
            error: Some(message),
        },
    }
}

// ---------------------------------------------------------------------------
// The walk over the books
// ---------------------------------------------------------------------------

/// The walk over a list of books, one JD search per book, in order.
pub struct PriceCrawl {
    books: Vec<DoubanBook>,
    results: Vec<JdBookPriceResult>,
}

impl PriceCrawl {
    /// The books to look up.
    pub closed spec fn books(&self) -> Seq<DoubanBook> {
        self.books@
    }

    /// The results so far, one per book already looked up, in order.
    pub closed spec fn results(&self) -> Seq<JdBookPriceResult> {
        self.results@
    }

    /// The results so far answer the first books, one each.
    pub open spec fn wf(&self) -> bool {
        &&& self.results().len() <= self.books().len()
        &&& forall|i: int|
            0 <= i < self.results().len() ==> (#[trigger] self.results()[i]).rank
                == self.books()[i].rank && self.results()[i].douban_title@
                == self.books()[i].title@ && self.results()[i].douban_publish_info@
                == self.books()[i].publish_info@ && search_url_of(self.books()[i].title@) == Some(
                self.results()[i].search_url@,
            )
    }

    /// A walk over `books` that has looked up none yet.
    pub fn new(books: Vec<DoubanBook>) -> (c: PriceCrawl)
        ensures
            c.wf(),
            c.books() == books@,
            c.results() == Seq::<JdBookPriceResult>::empty(),
    {
        let results = Vec::with_capacity(books.len());
        PriceCrawl { books, results }
    }

    /// The next book to look up; `None` once every book has its result.
    pub fn next_book(&self) -> (r: Option<&DoubanBook>)
        requires
            self.wf(),
        ensures
            self.results().len() < self.books().len() ==> r == Some(
                &self.books()[self.results().len() as int],
            ),
            self.results().len() == self.books().len() ==> r is None,
    {
        if self.results.len() < self.books.len() {
            Some(&self.books[self.results.len()])
        } else {
            None
        }
    }

    /// Records, for the next book, the outcome of its search. The search
    /// URL kept with it is that of `build_search_url` for the book's title;
    /// where that URL cannot be built, the walk fails as a whole with that
    /// error and is left as it was.
    pub fn record(&mut self, outcome: Result<Option<JdSearchItem>, String>) -> (r: Result<
        (),
        CrawlerError,
    >)
        requires
            old(self).wf(),
            old(self).results().len() < old(self).books().len(),
        ensures
            final(self).wf(),
            final(self).books() == old(self).books(),
            r is Ok <==> search_url_of(
                old(self).books()[old(self).results().len() as int].title@,
            ) is Some,
            r matches Err(e) ==> e is Url && *final(self) == *old(self),
            r is Ok ==> final(self).results().len() == old(self).results().len() + 1 && (forall|i: int|
                0 <= i < old(self).results().len() ==> final(self).results()[i]
                    == old(self).results()[i]) && records(
                final(self).results().last(),
                old(self).books()[old(self).results().len() as int],
                final(self).results().last().search_url@,
                outcome,
            ),
    {
        let k = self.results.len();
        let search_url = match build_search_url(self.books[k].title.as_str()) {
            Ok(u) => u,
            Err(e) => return Err(e),
        };
        let r = book_price_result(&self.books[k], search_url, outcome);
        self.results.push(r);
        Ok(())
    }

    /// The results, once every book has one: one per book, in the order of
    /// the books, each with the book's rank, title and publishing details,
    /// and the URL of the search for the book's title.
    pub fn finish(self) -> (r: Vec<JdBookPriceResult>)
        requires
            self.wf(),
            self.results().len() == self.books().len(),
        ensures
            r@ == self.results(),
            r.len() == self.books().len(),
            forall|i: int|
                0 <= i < r.len() ==> (#[trigger] r[i]).rank == self.books()[i].rank
                    && r[i].douban_title@ == self.books()[i].title@ && r[i].douban_publish_info@
                    == self.books()[i].publish_info@ && search_url_of(self.books()[i].title@)
                    == Some(r[i].search_url@),
    {
        self.results
    }
}

} // verus!
