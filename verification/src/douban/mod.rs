//! The Douban Top 250 lists of movies and books.
pub mod walk;

pub use walk::{BookWalk, MovieWalk};
use vstd::prelude::*;

use crate::crawler::page::{is_success_status, status_line, Page};
use crate::dom::{
    attr_of_first, document_match_count, element_attr, element_match_count, element_texts,
    first_attr, first_text, selector_parses, Css, Document, Element,
};
use crate::error::CrawlerError;
use crate::ranking::Ranked;
use crate::text::{
    concat_text, decimal, decimal_string, digits_in, digits_of, is_collapsed, join_chars, lemma_deep_chars,
    lemma_normalized_collapsed, normalized, parse_unsigned, parse_unsigned_text, string_of,
    trim, trimmed, words_of, words_of_parts,
};
use crate::urls::{url_with_pair, with_query_pair};

verus! {

/// The first page of the movie list.
pub open spec fn top250_url() -> Seq<char> {
    "https://movie.douban.com/top250"@
}

/// The first page of the book list.
pub open spec fn book_top250_url() -> Seq<char> {
    "https://book.douban.com/top250"@
}

/// How many entries one page of a list shows.
pub const PAGE_SIZE: usize = 25;

/// How many entries a list has.
pub const TOTAL_COUNT: usize = 250;

/// A movie of the list. `rating_text` is the rating as the page shows it;
/// its number is read from it where the record is written out.
#[derive(Debug, Clone)]
pub struct DoubanMovie {
    pub rank: usize,
    pub title: String,
    pub original_title: Option<String>,
    pub rating_text: Option<String>,
    pub rating_people: Option<u32>,
    pub quote: Option<String>,
    pub info: String,
    pub url: String,
}

/// A book of the list. `rating_text` is the rating as the page shows it.
#[derive(Debug, Clone)]
pub struct DoubanBook {
    pub rank: usize,
    pub title: String,
    pub rating_text: Option<String>,
    pub rating_people: Option<u32>,
    pub quote: Option<String>,
    pub publish_info: String,
    pub url: String,
}

/// A movie record over mathematical strings.
pub struct MovieRecord {
    pub rank: usize,
    pub title: Seq<char>,
    pub original_title: Option<Seq<char>>,
    pub rating_text: Option<Seq<char>>,
    pub rating_people: Option<u32>,
    pub quote: Option<Seq<char>>,
    pub info: Seq<char>,
    pub url: Seq<char>,
}

/// A book record over mathematical strings.
pub struct BookRecord {
    pub rank: usize,
    pub title: Seq<char>,
    pub rating_text: Option<Seq<char>>,
    pub rating_people: Option<u32>,
    pub quote: Option<Seq<char>>,
    pub publish_info: Seq<char>,
    pub url: Seq<char>,
}

impl DeepView for DoubanMovie {
    type V = MovieRecord;

    open spec fn deep_view(&self) -> MovieRecord {
        MovieRecord {
            rank: self.rank,
            title: self.title@,
            original_title: self.original_title.deep_view(),
            rating_text: self.rating_text.deep_view(),
            rating_people: self.rating_people,
            quote: self.quote.deep_view(),
            info: self.info@,
            url: self.url@,
        }
    }
}

impl DeepView for DoubanBook {
    type V = BookRecord;

    open spec fn deep_view(&self) -> BookRecord {
        BookRecord {
            rank: self.rank,
            title: self.title@,
            rating_text: self.rating_text.deep_view(),
            rating_people: self.rating_people,
            quote: self.quote.deep_view(),
            publish_info: self.publish_info@,
            url: self.url@,
        }
    }
}

impl Ranked for DoubanMovie {
    open spec fn rank_spec(&self) -> usize {
        self.rank
    }

    fn rank(&self) -> (r: usize) {
        self.rank
    }
}

impl Ranked for DoubanBook {
    open spec fn rank_spec(&self) -> usize {
        self.rank
    }

    fn rank(&self) -> (r: usize) {
        self.rank
    }
}

/// The value, or the empty string.
pub open spec fn or_empty(o: Option<Seq<char>>) -> Seq<char> {
    match o {
        Some(s) => s,
        None => seq![],
    }
}

fn string_or_empty(o: Option<String>) -> (r: String)
    ensures
        r@ == or_empty(o.deep_view()),
{
    match o {
        Some(s) => s,
        None => String::new(),
    }
}

// ---------------------------------------------------------------------------
// Text of elements
// ---------------------------------------------------------------------------

/// The text of `parts` with whitespace collapsed: every run of whitespace
/// becomes one space, and the ends carry none. Words never run across two
/// parts: the parts `"a"` and `"b"` give `"a b"`.
pub fn normalize_text(parts: &Vec<String>) -> (r: String)
    ensures
        r@ == normalized(parts.deep_view()),
        is_collapsed(r@),
{
    proof {
        lemma_normalized_collapsed(parts.deep_view());
    }
    let ghost pv = parts.deep_view();
    let mut all: Vec<Vec<char>> = Vec::new();
    let mut p: usize = 0;
    while p < parts.len()
        invariant
            p <= parts.len(),
            pv == parts.deep_view(),
            all.deep_view() == words_of_parts(pv.take(p as int)),
        decreases parts.len() - p,
    {
        let ws = words_of(parts[p].as_str());
        let ghost start = all.deep_view();
        let mut k: usize = 0;
        while k < ws.len()
            invariant
                k <= ws.len(),
                all.deep_view() == start + ws.deep_view().take(k as int),
            decreases ws.len() - k,
        {
            let ghost before = all.deep_view();
            let w = ws[k].clone();
            proof {
                lemma_deep_chars(w);
                lemma_deep_chars(ws[k as int]);
                assert(w@ =~= ws[k as int]@);
            }
            all.push(w);
            k = k + 1;
            proof {
                assert(all.deep_view() =~= before.push(ws[k - 1]@));
                assert(ws.deep_view().take(k as int) =~= ws.deep_view().take(k - 1).push(
                    ws[k - 1]@,
                ));
                assert(all.deep_view() =~= start + ws.deep_view().take(k as int));
            }
        }
        proof {
            assert(ws.deep_view().take(ws.len() as int) =~= ws.deep_view());
            assert(pv.take(p + 1).drop_last() =~= pv.take(p as int));
            assert(pv[p as int] == parts[p as int]@);
        }
        p = p + 1;
    }
    proof {
        assert(pv.take(parts.len() as int) =~= pv);
    }
    let out = join_chars(&all);
    string_of(&out)
}

/// The text of the first element that `css` matches below `root`, with
/// whitespace collapsed, where it is not empty.
pub(crate) fn text_of(root: &Element, css: &str) -> (r: Option<String>)
    ensures
        match first_text(root.source(), root.address(), css@) {
            Some(t) => r matches Some(s) && s@ == t,
            None => r is None,
        },
{
    let sel = match Css::parse(css) {
        Some(sel) => sel,
        None => return None,
    };
    let found = root.select(&sel);
    if found.len() == 0 {
        return None;
    }
    let parts = found[0].texts();
    let t = normalize_text(&parts);
    if t.as_str().is_empty() {
        None
    } else {
        Some(t)
    }
}

// ---------------------------------------------------------------------------
// Counts of people
// ---------------------------------------------------------------------------

/// The number that the ASCII digits of `text` spell, where they spell a `u32`.
pub open spec fn people_count(text: Seq<char>) -> Option<u32> {
    match parse_unsigned(digits_in(text), u32::MAX as nat) {
        Some(v) => Some(v as u32),
        None => None,
    }
}

/// Reads a count such as `"(123456人评价)"`: the ASCII digits of `text`
/// taken together as one number; `None` where there are none or the number
/// does not fit in a `u32`.
pub fn parse_people_count(text: String) -> (r: Option<u32>)
    ensures
        r == people_count(text@),
{
    let digits = digits_of(text.as_str());
    match parse_unsigned_text(digits.as_str(), 0xffff_ffff) {
        Some(v) => Some(v as u32),
        None => None,
    }
}

/// `people_count` of the text of the first element that `css` matches below
/// the element at `at`.
pub open spec fn people_at(html: Seq<char>, at: Seq<(Seq<char>, usize)>, css: Seq<char>) -> Option<
    u32,
> {
    match first_text(html, at, css) {
        Some(t) => people_count(t),
        None => None,
    }
}

fn people_of(root: &Element, css: &str) -> (r: Option<u32>)
    ensures
        r == people_at(root.source(), root.address(), css@),
{
    match text_of(root, css) {
        Some(t) => parse_people_count(t),
        None => None,
    }
}

// ---------------------------------------------------------------------------
// Movies
// ---------------------------------------------------------------------------

/// The movie that the list item at `at` describes: it needs a rank that
/// parses and a title.
pub open spec fn movie_at(html: Seq<char>, at: Seq<(Seq<char>, usize)>) -> Option<MovieRecord> {
    match first_text(html, at, ".pic em"@) {
        None => None,
        Some(rank_text) => match parse_unsigned(rank_text, usize::MAX as nat) {
            None => None,
            Some(rank) => match first_text(html, at, ".hd a .title"@) {
                None => None,
                Some(title) => Some(
                    MovieRecord {
                        rank: rank as usize,
                        title,
                        original_title: first_text(html, at, ".hd a .other"@),
                        rating_text: first_text(html, at, ".rating_num"@),
                        rating_people: people_at(html, at, ".star span:last-child"@),
                        quote: first_text(html, at, ".inq"@),
                        info: or_empty(first_text(html, at, ".bd p"@)),
                        url: or_empty(first_attr(html, at, ".hd a"@, "href"@)),
                    },
                ),
            },
        },
    }
}

/// The movies described by the first `n` list items of the page `html`.
pub open spec fn movies_upto(html: Seq<char>, n: nat) -> Seq<MovieRecord>
    decreases n,
{
    if n == 0 {
        seq![]
    } else {
        let rest = movies_upto(html, (n - 1) as nat);
        match movie_at(html, seq![(".grid_view .item"@, (n - 1) as usize)]) {
            Some(m) => rest.push(m),
            None => rest,
        }
    }
}

/// The movies of the list page `html`, in page order.
pub open spec fn movies_in(html: Seq<char>) -> Seq<MovieRecord> {
    if selector_parses(".grid_view .item"@) {
        movies_upto(html, document_match_count(html, ".grid_view .item"@))
    } else {
        seq![]
    }
}

fn parse_usize(text: &str) -> (r: Option<usize>)
    ensures
        match parse_unsigned(text@, usize::MAX as nat) {
            Some(v) => r == Some(v as usize),
            None => r is None,
        },
{
    match parse_unsigned_text(text, usize::MAX as u64) {
        Some(v) => Some(v as usize),
        None => None,
    }
}

/// Reads one movie from a list item.
pub(crate) fn parse_movie_item(item: &Element) -> (r: Option<DoubanMovie>)
    ensures
        r.deep_view() == movie_at(item.source(), item.address()),
{
    let rank_text = match text_of(item, ".pic em") {
        Some(t) => t,
        None => return None,
    };
    let rank = match parse_usize(rank_text.as_str()) {
        Some(r) => r,
        None => return None,
    };
    let title = match text_of(item, ".hd a .title") {
        Some(t) => t,
        None => return None,
    };
    let original_title = text_of(item, ".hd a .other");
    let rating_text = text_of(item, ".rating_num");
    let rating_people = people_of(item, ".star span:last-child");
    let quote = text_of(item, ".inq");
    let info = string_or_empty(text_of(item, ".bd p"));
    let url = string_or_empty(attr_of_first(item, ".hd a", "href"));
    Some(
        DoubanMovie { rank, title, original_title, rating_text, rating_people, quote, info, url },
    )
}

/// The movies of one page of the movie list, in page order; items that lack
/// a rank or a title are left out.
pub fn parse_top250_page(html: &str) -> (r: Vec<DoubanMovie>)
    ensures
        r.deep_view() == movies_in(html@),
{
    let document = Document::parse(html);
    let selector = match Css::parse(".grid_view .item") {
        Some(s) => s,
        None => return Vec::new(),
    };
    let items = document.select(&selector);
    let mut out: Vec<DoubanMovie> = Vec::new();
    let mut i: usize = 0;
    while i < items.len()
        invariant
            i <= items.len(),
            items.len() == document_match_count(html@, ".grid_view .item"@),
            forall|j: int|
                0 <= j < items.len() ==> (#[trigger] items[j]).source() == html@ && items[j].address()
                    == seq![(".grid_view .item"@, j as usize)],
            out.deep_view() == movies_upto(html@, i as nat),
        decreases items.len() - i,
    {
        let ghost before = out.deep_view();
        let item = &items[i];
        if let Some(m) = parse_movie_item(item) {
            out.push(m);
            proof {
                assert(out.deep_view() =~= before.push(out[out.len() - 1].deep_view()));
            }
        }
        i = i + 1;
    }
    out
}

// ---------------------------------------------------------------------------
// Books
// ---------------------------------------------------------------------------

/// The title of a book from its title link at `link`: the link's `title`
/// attribute, trimmed, where that is not blank, else the link's text with
/// whitespace collapsed.
pub open spec fn book_title_at(html: Seq<char>, link: Seq<(Seq<char>, usize)>) -> Seq<char> {
    match element_attr(html, link, "title"@) {
        Some(t) => if trimmed(t).len() > 0 {
            trimmed(t)
        } else {
            normalized(element_texts(html, link))
        },
        None => normalized(element_texts(html, link)),
    }
}

/// The book that the list item at `at` describes, given the rank `rank`: it
/// needs a title link.
pub open spec fn book_at(html: Seq<char>, at: Seq<(Seq<char>, usize)>, rank: usize) -> Option<
    BookRecord,
> {
    if selector_parses(".pl2 a"@) && element_match_count(html, at, ".pl2 a"@) > 0 {
        let link = at.push((".pl2 a"@, 0usize));
        Some(
            BookRecord {
                rank,
                title: book_title_at(html, link),
                rating_text: first_text(html, at, ".rating_nums"@),
                rating_people: people_at(html, at, ".star .pl"@),
                quote: first_text(html, at, ".inq"@),
                publish_info: or_empty(first_text(html, at, "p.pl"@)),
                url: or_empty(element_attr(html, link, "href"@)),
            },
        )
    } else {
        None
    }
}

/// The books described by the first `n` list items of the page `html`,
/// whose first item has the rank `start + 1`.
pub open spec fn books_upto(html: Seq<char>, start: usize, n: nat) -> Seq<BookRecord>
    decreases n,
{
    if n == 0 {
        seq![]
    } else {
        let rest = books_upto(html, start, (n - 1) as nat);
        match book_at(html, seq![("tr.item"@, (n - 1) as usize)], (start + n) as usize) {
            Some(b) => rest.push(b),
            None => rest,
        }
    }
}

/// The books of the list page `html` whose entries start after `start`.
pub open spec fn books_in(html: Seq<char>, start: usize) -> Seq<BookRecord> {
    if selector_parses("tr.item"@) {
        books_upto(html, start, document_match_count(html, "tr.item"@))
    } else {
        seq![]
    }
}

/// Reads one book from a list item, giving it the rank `rank`.
pub(crate) fn parse_book_item(item: &Element, rank: usize) -> (r: Option<DoubanBook>)
    ensures
        r.deep_view() == book_at(item.source(), item.address(), rank),
{
    let selector = match Css::parse(".pl2 a") {
        Some(s) => s,
        None => return None,
    };
    let links = item.select(&selector);
    if links.len() == 0 {
        return None;
    }
    let link = &links[0];
    let title = match link.attr("title") {
        Some(t) => {
            let t = trim(t.as_str());
            if t.as_str().is_empty() {
                normalize_text(&link.texts())
            } else {
                t
            }
        },
        None => normalize_text(&link.texts()),
    };
    let rating_text = text_of(item, ".rating_nums");
    let rating_people = people_of(item, ".star .pl");
    let quote = text_of(item, ".inq");
    let publish_info = string_or_empty(text_of(item, "p.pl"));
    let url = string_or_empty(link.attr("href"));
    Some(DoubanBook { rank, title, rating_text, rating_people, quote, publish_info, url })
}

/// The books of one page of the book list, in page order; the item at
/// position `i` on the page has the rank `start + i + 1`, and items without
/// a title link are left out. Ranks increase along the result, and all
/// exceed `start`.
pub fn parse_book_top250_page(html: &str, start: usize) -> (r: Vec<DoubanBook>)
    requires
        start <= isize::MAX,
    ensures
        r.deep_view() == books_in(html@, start),
        forall|i: int| 0 <= i < r.len() ==> start < #[trigger] r[i].rank,
        forall|i: int|
            0 <= i < r.len() ==> #[trigger] r[i].rank <= start + document_match_count(
                html@,
                "tr.item"@,
            ),
        forall|i: int, j: int| 0 <= i < j < r.len() ==> r[i].rank < r[j].rank,
        selector_parses("tr.item"@) ==> document_match_count(html@, "tr.item"@) <= isize::MAX,
{
    let document = Document::parse(html);
    let selector = match Css::parse("tr.item") {
        Some(s) => s,
        None => return Vec::new(),
    };
    let items = document.select(&selector);
    let mut out: Vec<DoubanBook> = Vec::new();
    let mut i: usize = 0;
    while i < items.len()
        invariant
            i <= items.len() <= isize::MAX,
            start <= isize::MAX,
            items.len() == document_match_count(html@, "tr.item"@),
            forall|j: int|
                0 <= j < items.len() ==> (#[trigger] items[j]).source() == html@ && items[j].address()
                    == seq![("tr.item"@, j as usize)],
            out.deep_view() == books_upto(html@, start, i as nat),
            forall|k: int| 0 <= k < out.len() ==> start < #[trigger] out[k].rank <= start + i,
            forall|k: int, j: int| 0 <= k < j < out.len() ==> out[k].rank < out[j].rank,
        decreases items.len() - i,
    {
        let ghost before = out.deep_view();
        let item = &items[i];
        let rank = start + i + 1;
        if let Some(b) = parse_book_item(item, rank) {
            out.push(b);
            proof {
                assert(out.deep_view() =~= before.push(out[out.len() - 1].deep_view()));
            }
        }
        i = i + 1;
    }
    out
}

// ---------------------------------------------------------------------------
// Walking the list
// ---------------------------------------------------------------------------

/// The offsets of the list's pages: 0, 25, ..., 225.
pub fn page_starts() -> (r: Vec<usize>)
    ensures
        r.len() == TOTAL_COUNT / PAGE_SIZE,
        forall|i: int| 0 <= i < r.len() ==> #[trigger] r[i] == i * PAGE_SIZE,
{
    let mut r: Vec<usize> = Vec::new();
    let mut start: usize = 0;
    while start < TOTAL_COUNT
        invariant
            start == r.len() * PAGE_SIZE,
            start <= TOTAL_COUNT,
            forall|i: int| 0 <= i < r.len() ==> #[trigger] r[i] == i * PAGE_SIZE,
        decreases TOTAL_COUNT - start,
    {
        r.push(start);
        start = start + PAGE_SIZE;
    }
    r
}

/// The URL of the movie page that starts after `start` entries.
pub open spec fn movie_page_url_of(start: usize) -> Option<Seq<char>> {
    match url_with_pair(top250_url(), "start"@, decimal(start as nat)) {
        Some(u) => url_with_pair(u, "filter"@, ""@),
        None => None,
    }
}

/// The URL of the book page that starts after `start` entries.
pub open spec fn book_page_url_of(start: usize) -> Option<Seq<char>> {
    url_with_pair(book_top250_url(), "start"@, decimal(start as nat))
}

/// The URL of the movie page that starts after `start` entries:
/// `https://movie.douban.com/top250?start=<start>&filter=`.
pub fn movie_page_url(start: usize) -> (r: Result<String, CrawlerError>)
    ensures
        r is Ok <==> movie_page_url_of(start) is Some,
        r matches Ok(u) ==> movie_page_url_of(start) == Some(u@),
        r matches Err(e) ==> e is Url,
{
    let n = decimal_string(start as u64);
    let first = match with_query_pair("https://movie.douban.com/top250", "start", n.as_str()) {
        Ok(u) => u,
        Err(e) => return Err(CrawlerError::Url(e)),
    };
    match with_query_pair(first.as_str(), "filter", "") {
        Ok(u) => Ok(u),
        Err(e) => Err(CrawlerError::Url(e)),
    }
}

/// The URL of the book page that starts after `start` entries:
/// `https://book.douban.com/top250?start=<start>`.
pub fn book_page_url(start: usize) -> (r: Result<String, CrawlerError>)
    ensures
        r is Ok <==> book_page_url_of(start) is Some,
        r matches Ok(u) ==> book_page_url_of(start) == Some(u@),
        r matches Err(e) ==> e is Url,
{
    let n = decimal_string(start as u64);
    match with_query_pair("https://book.douban.com/top250", "start", n.as_str()) {
        Ok(u) => Ok(u),
        Err(e) => Err(CrawlerError::Url(e)),
    }
}

/// The message of a refused page: `what`, the status as shown, and the URL.
pub open spec fn failure_message(what: Seq<char>, page: Page) -> Seq<char> {
    what + status_line(page.status) + " "@ + page.url@
}

fn status_failure(what: &str, page: &Page) -> (r: String)
    ensures
        r@ == failure_message(what@, *page),
{
    let status = page.status_text();
    let a = concat_text(what, status.as_str());
    let b = concat_text(a.as_str(), " ");
    concat_text(b.as_str(), page.url.as_str())
}

/// The movies of a fetched page of the movie list. Fails with a message
/// where the status is not a success, or where the page yields no movie.
pub fn accept_movie_page(page: &Page) -> (r: Result<Vec<DoubanMovie>, CrawlerError>)
    ensures
        !is_success_status(page.status) ==> (r matches Err(CrawlerError::Message(m)) && m@
            == failure_message("douban request failed: "@, *page)),
        is_success_status(page.status) && movies_in(page.body@).len() == 0 ==> (r matches Err(
            CrawlerError::Message(m),
        ) && m@ == "no movies parsed from douban page: "@ + page.url@),
        is_success_status(page.status) && movies_in(page.body@).len() > 0 ==> (r matches Ok(v)
            && v.deep_view() == movies_in(page.body@)),
{
    if !page.is_success() {
        return Err(CrawlerError::Message(status_failure("douban request failed: ", page)));
    }
    let movies = parse_top250_page(page.body.as_str());
    if movies.len() == 0 {
        return Err(
            CrawlerError::Message(
                concat_text("no movies parsed from douban page: ", page.url.as_str()),
            ),
        );
    }
    Ok(movies)
}

/// The books of a fetched page of the book list that starts after `start`
/// entries. Fails with a message where the status is not a success, or where
/// the page yields no book.
pub fn accept_book_page(page: &Page, start: usize) -> (r: Result<Vec<DoubanBook>, CrawlerError>)
    requires
        start <= isize::MAX,
    ensures
        !is_success_status(page.status) ==> (r matches Err(CrawlerError::Message(m)) && m@
            == failure_message("douban book request failed: "@, *page)),
        is_success_status(page.status) && books_in(page.body@, start).len() == 0 ==> (r matches Err(
            CrawlerError::Message(m),
        ) && m@ == "no books parsed from douban page: "@ + page.url@),
        is_success_status(page.status) && books_in(page.body@, start).len() > 0 ==> (r matches Ok(v)
            && v.deep_view() == books_in(page.body@, start)),
        r matches Ok(v) ==> forall|i: int|
            0 <= i < v.len() ==> start < #[trigger] v[i].rank <= start + document_match_count(
                page.body@,
                "tr.item"@,
            ),
{
    if !page.is_success() {
        return Err(CrawlerError::Message(status_failure("douban book request failed: ", page)));
    }
    let books = parse_book_top250_page(page.body.as_str(), start);
    if books.len() == 0 {
        return Err(
            CrawlerError::Message(concat_text("no books parsed from douban page: ", page.url.as_str())),
        );
    }
    Ok(books)
}

} // verus!


verus! {

// ---------------------------------------------------------------------------
// What a page of a list yields
// ---------------------------------------------------------------------------

/// The address of the `i`-th movie item of a page.
pub open spec fn movie_item(i: nat) -> Seq<(Seq<char>, usize)> {
    seq![(".grid_view .item"@, i as usize)]
}

/// The rank that the `i`-th movie item shows, where its `.pic em` text reads
/// as one.
pub open spec fn shown_rank(html: Seq<char>, i: nat) -> Option<nat> {
    match first_text(html, movie_item(i), ".pic em"@) {
        Some(t) => parse_unsigned(t, usize::MAX as nat),
        None => None,
    }
}

/// The `i`-th movie item shows a rank and a title.
pub open spec fn is_listed_movie(html: Seq<char>, i: nat) -> bool {
    shown_rank(html, i) is Some && first_text(html, movie_item(i), ".hd a .title"@) is Some
}

/// How many of the first `n` movie items show a rank and a title.
pub open spec fn listed_movies_before(html: Seq<char>, n: nat) -> nat
    decreases n,
{
    if n == 0 {
        0
    } else {
        listed_movies_before(html, (n - 1) as nat) + if is_listed_movie(html, (n - 1) as nat) {
            1nat
        } else {
            0nat
        }
    }
}

/// The movie that the `i`-th item gives carries what the item shows: its
/// rank, its first title, its other title, rating and quote where it has
/// them (the quote is `None` for an item without one), and so on.
pub open spec fn movie_shows(html: Seq<char>, i: nat, m: MovieRecord) -> bool {
    let at = movie_item(i);
    &&& m.rank == shown_rank(html, i)->0
    &&& Some(m.title) == first_text(html, at, ".hd a .title"@)
    &&& m.original_title == first_text(html, at, ".hd a .other"@)
    &&& m.rating_text == first_text(html, at, ".rating_num"@)
    &&& m.quote == first_text(html, at, ".inq"@)
    &&& m.info == or_empty(first_text(html, at, ".bd p"@))
    &&& m.url == or_empty(first_attr(html, at, ".hd a"@, "href"@))
}

proof fn lemma_movies_upto(html: Seq<char>, n: nat)
    ensures
        movies_upto(html, n).len() == listed_movies_before(html, n),
        forall|i: nat|
            i < n && is_listed_movie(html, i) ==> #[trigger] listed_movies_before(html, i)
                < movies_upto(html, n).len() && movie_shows(
                html,
                i,
                movies_upto(html, n)[listed_movies_before(html, i) as int],
            ),
    decreases n,
{
    if n > 0 {
        let m = (n - 1) as nat;
        lemma_movies_upto(html, m);
        assert(movie_item(m) == seq![(".grid_view .item"@, m as usize)]);
        assert forall|i: nat|
            i < n && is_listed_movie(html, i) implies #[trigger] listed_movies_before(html, i)
            < movies_upto(html, n).len() && movie_shows(
            html,
            i,
            movies_upto(html, n)[listed_movies_before(html, i) as int],
        ) by {
            if i < m {
                assert(listed_movies_before(html, i) < movies_upto(html, m).len());
            }
        }
    }
}

/// Every item of a movie page that shows a rank and a title gives a movie,
/// whether or not it has a quote, a rating or another title; the movies
/// come one per such item, in the order of the items, and each carries what
/// its item shows.
pub proof fn lemma_movies_complete(html: Seq<char>, i: nat)
    requires
        selector_parses(".grid_view .item"@),
        i < document_match_count(html, ".grid_view .item"@),
        is_listed_movie(html, i),
    ensures
        movies_in(html).len() == listed_movies_before(
            html,
            document_match_count(html, ".grid_view .item"@),
        ),
        listed_movies_before(html, i) < movies_in(html).len(),
        movie_shows(html, i, movies_in(html)[listed_movies_before(html, i) as int]),
{
    lemma_movies_upto(html, document_match_count(html, ".grid_view .item"@));
}

/// The address of the `i`-th book item of a page.
pub open spec fn book_item(i: nat) -> Seq<(Seq<char>, usize)> {
    seq![("tr.item"@, i as usize)]
}

/// The `i`-th book item has a title link.
pub open spec fn has_title_link(html: Seq<char>, i: nat) -> bool {
    selector_parses(".pl2 a"@) && element_match_count(html, book_item(i), ".pl2 a"@) > 0
}

/// How many of the first `n` book items have a title link.
pub open spec fn linked_books_before(html: Seq<char>, n: nat) -> nat
    decreases n,
{
    if n == 0 {
        0
    } else {
        linked_books_before(html, (n - 1) as nat) + if has_title_link(html, (n - 1) as nat) {
            1nat
        } else {
            0nat
        }
    }
}

/// The book that the `i`-th item of the page at offset `start` gives
/// carries the rank `start + i + 1` and what the item shows: where the title
/// link's `title` attribute is not blank, the title is exactly that
/// attribute without the whitespace at its ends; else the link's text with
/// whitespace collapsed.
pub open spec fn book_shows(html: Seq<char>, start: usize, i: nat, b: BookRecord) -> bool {
    let at = book_item(i);
    let link = at.push((".pl2 a"@, 0usize));
    &&& b.rank == start + i + 1
    &&& match element_attr(html, link, "title"@) {
        Some(t) => if trimmed(t).len() > 0 {
            b.title == trimmed(t)
        } else {
            b.title == normalized(element_texts(html, link))
        },
        None => b.title == normalized(element_texts(html, link)),
    }
    &&& b.rating_text == first_text(html, at, ".rating_nums"@)
    &&& b.quote == first_text(html, at, ".inq"@)
    &&& b.publish_info == or_empty(first_text(html, at, "p.pl"@))
    &&& b.url == or_empty(element_attr(html, link, "href"@))
}

proof fn lemma_books_upto(html: Seq<char>, start: usize, n: nat)
    requires
        start + n <= usize::MAX,
    ensures
        books_upto(html, start, n).len() == linked_books_before(html, n),
        forall|i: nat|
            i < n && has_title_link(html, i) ==> #[trigger] linked_books_before(html, i)
                < books_upto(html, start, n).len() && book_shows(
                html,
                start,
                i,
                books_upto(html, start, n)[linked_books_before(html, i) as int],
            ),
    decreases n,
{
    if n > 0 {
        let m = (n - 1) as nat;
        lemma_books_upto(html, start, m);
        assert(book_item(m) == seq![("tr.item"@, m as usize)]);
        assert forall|i: nat|
            i < n && has_title_link(html, i) implies #[trigger] linked_books_before(html, i)
            < books_upto(html, start, n).len() && book_shows(
            html,
            start,
            i,
            books_upto(html, start, n)[linked_books_before(html, i) as int],
        ) by {
            if i < m {
                assert(linked_books_before(html, i) < books_upto(html, start, m).len());
            }
        }
    }
}

/// Every item of a book page with a title link gives a book, ranked by its
/// position on the page; the books come one per such item, in the order of
/// the items, and each carries its title as its `title` attribute gives it
/// (trimmed, of any length) or else as its link text gives it.
pub proof fn lemma_books_complete(html: Seq<char>, start: usize, i: nat)
    requires
        selector_parses("tr.item"@),
        i < document_match_count(html, "tr.item"@),
        start + document_match_count(html, "tr.item"@) <= usize::MAX,
        has_title_link(html, i),
    ensures
        books_in(html, start).len() == linked_books_before(
            html,
            document_match_count(html, "tr.item"@),
        ),
        linked_books_before(html, i) < books_in(html, start).len(),
        book_shows(html, start, i, books_in(html, start)[linked_books_before(html, i) as int]),
{
    lemma_books_upto(html, start, document_match_count(html, "tr.item"@));
}

} // verus!
