//! The walks over the ten pages of a list: which page to fetch next, what
//! each fetched page gave, and the list they make at the end.
use vstd::prelude::*;

use crate::crawler::page::{is_success_status, Page};
use crate::dom::{document_match_count, element_match_count, selector_parses};
use crate::error::CrawlerError;
use crate::ranking::{
    first_of_its_rank, has_rank, is_first_record, lemma_ranks_one_to_n, sort_dedup_by_rank,
    sorted_first_by_rank, Ranked,
};

use super::{
    accept_book_page, accept_movie_page, book_at, books_in, books_upto, failure_message,
    movies_in, BookRecord, DoubanBook, DoubanMovie, MovieRecord, PAGE_SIZE, TOTAL_COUNT,
};

verus! {

/// How many pages a list has.
pub open spec fn page_count() -> nat {
    (TOTAL_COUNT / PAGE_SIZE) as nat
}

/// The offset of the `k`-th page of a list.
pub open spec fn page_start(k: int) -> usize {
    (k * PAGE_SIZE) as usize
}

/// The entries of all parts, part after part.
pub open spec fn concat_parts<T>(parts: Seq<Seq<T>>) -> Seq<T>
    decreases parts.len(),
{
    if parts.len() == 0 {
        seq![]
    } else {
        concat_parts(parts.drop_last()) + parts.last()
    }
}

/// The records of some movies.
pub open spec fn movie_records(s: Seq<DoubanMovie>) -> Seq<MovieRecord> {
    s.map_values(|m: DoubanMovie| m.deep_view())
}

/// The records of some books.
pub open spec fn book_records(s: Seq<DoubanBook>) -> Seq<BookRecord> {
    s.map_values(|b: DoubanBook| b.deep_view())
}

proof fn lemma_concat_ranked<T: Ranked>(parts: Seq<Seq<T>>, r: usize)
    requires
        exists|k: int| 0 <= k < parts.len() && has_rank(#[trigger] parts[k], r),
    ensures
        has_rank(concat_parts(parts), r),
    decreases parts.len(),
{
    let k = choose|k: int| 0 <= k < parts.len() && has_rank(#[trigger] parts[k], r);
    let front = parts.drop_last();
    let last = parts.last();
    if k == parts.len() - 1 {
        let i = choose|i: int| 0 <= i < last.len() && last[i].rank_spec() == r;
        assert((concat_parts(front) + last)[concat_parts(front).len() + i] == last[i]);
    } else {
        assert(front[k] == parts[k]);
        lemma_concat_ranked(front, r);
        let c = concat_parts(front);
        let i = choose|i: int| 0 <= i < c.len() && c[i].rank_spec() == r;
        assert((c + last)[i] == c[i]);
    }
}

// ---------------------------------------------------------------------------
// Movies
// ---------------------------------------------------------------------------

/// The walk over the pages of the movie list.
pub struct MovieWalk {
    done: usize,
    collected: Vec<DoubanMovie>,
    bodies: Ghost<Seq<Seq<char>>>,
    parts: Ghost<Seq<Seq<DoubanMovie>>>,
}

impl MovieWalk {
    /// How many pages have been added.
    pub closed spec fn pages_done(&self) -> nat {
        self.done as nat
    }

    /// The bodies of the pages added so far, in order.
    pub closed spec fn bodies(&self) -> Seq<Seq<char>> {
        self.bodies@
    }

    /// The movies that each page added so far gave.
    pub closed spec fn parts(&self) -> Seq<Seq<DoubanMovie>> {
        self.parts@
    }

    /// The movies of the pages added so far, page after page.
    pub closed spec fn collected(&self) -> Seq<DoubanMovie> {
        self.collected@
    }

    /// Each page added gave the movies it describes, at least one.
    pub open spec fn wf(&self) -> bool {
        &&& self.pages_done() <= page_count()
        &&& self.bodies().len() == self.pages_done()
        &&& self.parts().len() == self.pages_done()
        &&& self.collected() == concat_parts(self.parts())
        &&& forall|k: int|
            0 <= k < self.pages_done() ==> (#[trigger] self.parts()[k]).len() > 0 && movie_records(
                self.parts()[k],
            ) == movies_in(self.bodies()[k])
    }

    /// A walk that has added no page yet.
    pub fn new() -> (w: MovieWalk)
        ensures
            w.wf(),
            w.pages_done() == 0,
    {
        MovieWalk { done: 0, collected: Vec::new(), bodies: Ghost(Seq::empty()), parts: Ghost(Seq::empty()) }
    }

    /// The offset of the next page to fetch: 0, 25, ..., 225; `None` once
    /// all ten are in.
    pub fn next_start(&self) -> (r: Option<usize>)
        requires
            self.wf(),
        ensures
            self.pages_done() < page_count() ==> r == Some(page_start(self.pages_done() as int)),
            self.pages_done() == page_count() ==> r is None,
    {
        if self.done < TOTAL_COUNT / PAGE_SIZE {
            Some(self.done * PAGE_SIZE)
        } else {
            None
        }
    }

    /// Adds the fetched page at the next offset. Fails, leaving the walk as
    /// it was, where `accept_movie_page` refuses the page.
    pub fn add_page(&mut self, page: &Page) -> (r: Result<(), CrawlerError>)
        requires
            old(self).wf(),
            old(self).pages_done() < page_count(),
        ensures
            final(self).wf(),
            r is Ok <==> is_success_status(page.status) && movies_in(page.body@).len() > 0,
            r is Ok ==> final(self).pages_done() == old(self).pages_done() + 1 && final(self).bodies()
                == old(self).bodies().push(page.body@) && final(self).parts().drop_last()
                == old(self).parts(),
            r is Err ==> *final(self) == *old(self),
            !is_success_status(page.status) ==> (r matches Err(CrawlerError::Message(m)) && m@
                == failure_message("douban request failed: "@, *page)),
            is_success_status(page.status) && movies_in(page.body@).len() == 0 ==> (r matches Err(
                CrawlerError::Message(m),
            ) && m@ == "no movies parsed from douban page: "@ + page.url@),
    {
        match accept_movie_page(page) {
            Ok(movies) => {
                let ghost part = movies@;
                proof {
                    assert(movie_records(part) =~= movies.deep_view());
                }
                let mut movies = movies;
                self.collected.append(&mut movies);
                self.done = self.done + 1;
                proof {
                    let old_parts = self.parts@;
                    self.bodies@ = self.bodies@.push(page.body@);
                    self.parts@ = self.parts@.push(part);
                    assert(self.parts@.drop_last() =~= old_parts);
                    assert forall|k: int| 0 <= k < self.done implies (#[trigger] self.parts@[k]).len()
                        > 0 && movie_records(self.parts@[k]) == movies_in(self.bodies@[k]) by {
                        if k < self.done - 1 {
                            assert(self.parts@[k] == old_parts[k]);
                        }
                    }
                }
                Ok(())
            },
            Err(e) => Err(e),
        }
    }

    /// The list once every page is in: by increasing rank, for each rank
    /// the first movie that had it. It is never empty.
    pub fn finish(self) -> (r: Vec<DoubanMovie>)
        requires
            self.wf(),
            self.pages_done() == page_count(),
        ensures
            sorted_first_by_rank(self.collected(), r@),
            r.len() > 0,
    {
        proof {
            assert(has_rank(self.parts()[0], self.parts()[0][0].rank_spec()));
            lemma_concat_ranked(self.parts(), self.parts()[0][0].rank_spec());
        }
        let r = sort_dedup_by_rank(self.collected);
        proof {
            let c = self.collected@;
            let i = choose|i: int| 0 <= i < c.len() && c[i].rank_spec() == self.parts()[0][0].rank_spec();
            assert(has_rank(r@, c[i].rank_spec()));
        }
        r
    }
}

// ---------------------------------------------------------------------------
// Books
// ---------------------------------------------------------------------------

/// The walk over the pages of the book list. The books of the page at
/// offset `s` are ranked from `s + 1` on, by their position on the page.
pub struct BookWalk {
    done: usize,
    collected: Vec<DoubanBook>,
    bodies: Ghost<Seq<Seq<char>>>,
    parts: Ghost<Seq<Seq<DoubanBook>>>,
}

impl BookWalk {
    /// How many pages have been added.
    pub closed spec fn pages_done(&self) -> nat {
        self.done as nat
    }

    /// The bodies of the pages added so far, in order.
    pub closed spec fn bodies(&self) -> Seq<Seq<char>> {
        self.bodies@
    }

    /// The books that each page added so far gave.
    pub closed spec fn parts(&self) -> Seq<Seq<DoubanBook>> {
        self.parts@
    }

    /// The books of the pages added so far, page after page.
    pub closed spec fn collected(&self) -> Seq<DoubanBook> {
        self.collected@
    }

    /// Each page added gave, numbered from its own offset, the books it
    /// describes, at least one: those of the page at offset `s` with `n`
    /// list items have ranks from `s + 1` to `s + n`.
    pub open spec fn wf(&self) -> bool {
        &&& self.pages_done() <= page_count()
        &&& self.bodies().len() == self.pages_done()
        &&& self.parts().len() == self.pages_done()
        &&& self.collected() == concat_parts(self.parts())
        &&& forall|k: int|
            0 <= k < self.pages_done() ==> (#[trigger] self.parts()[k]).len() > 0 && book_records(
                self.parts()[k],
            ) == books_in(self.bodies()[k], page_start(k))
        &&& forall|k: int, i: int|
            0 <= k < self.pages_done() && 0 <= i < self.parts()[k].len() ==> page_start(k)
                < (#[trigger] self.parts()[k][i]).rank <= page_start(k) + document_match_count(
                self.bodies()[k],
                "tr.item"@,
            )
    }

    /// A walk that has added no page yet.
    pub fn new() -> (w: BookWalk)
        ensures
            w.wf(),
            w.pages_done() == 0,
    {
        BookWalk { done: 0, collected: Vec::new(), bodies: Ghost(Seq::empty()), parts: Ghost(Seq::empty()) }
    }

    /// The offset of the next page to fetch: 0, 25, ..., 225; `None` once
    /// all ten are in.
    pub fn next_start(&self) -> (r: Option<usize>)
        requires
            self.wf(),
        ensures
            self.pages_done() < page_count() ==> r == Some(page_start(self.pages_done() as int)),
            self.pages_done() == page_count() ==> r is None,
    {
        if self.done < TOTAL_COUNT / PAGE_SIZE {
            Some(self.done * PAGE_SIZE)
        } else {
            None
        }
    }

    /// Adds the fetched page at the next offset, numbering its books from
    /// that offset. Fails, leaving the walk as it was, where
    /// `accept_book_page` refuses the page.
    pub fn add_page(&mut self, page: &Page) -> (r: Result<(), CrawlerError>)
        requires
            old(self).wf(),
            old(self).pages_done() < page_count(),
        ensures
            final(self).wf(),
            r is Ok <==> is_success_status(page.status) && books_in(
                page.body@,
                page_start(old(self).pages_done() as int),
            ).len() > 0,
            r is Ok ==> final(self).pages_done() == old(self).pages_done() + 1 && final(self).bodies()
                == old(self).bodies().push(page.body@) && final(self).parts().drop_last()
                == old(self).parts(),
            r is Err ==> *final(self) == *old(self),
            !is_success_status(page.status) ==> (r matches Err(CrawlerError::Message(m)) && m@
                == failure_message("douban book request failed: "@, *page)),
            is_success_status(page.status) && books_in(
                page.body@,
                page_start(old(self).pages_done() as int),
            ).len() == 0 ==> (r matches Err(CrawlerError::Message(m)) && m@
                == "no books parsed from douban page: "@ + page.url@),
    {
        let start = self.done * PAGE_SIZE;
        match accept_book_page(page, start) {
            Ok(books) => {
                let ghost part = books@;
                proof {
                    assert(book_records(part) =~= books.deep_view());
                }
                let mut books = books;
                self.collected.append(&mut books);
                self.done = self.done + 1;
                proof {
                    let old_parts = self.parts@;
                    let old_bodies = self.bodies@;
                    self.bodies@ = self.bodies@.push(page.body@);
                    self.parts@ = self.parts@.push(part);
                    assert(self.parts@.drop_last() =~= old_parts);
                    assert forall|k: int| 0 <= k < self.done implies (#[trigger] self.parts@[k]).len()
                        > 0 && book_records(self.parts@[k]) == books_in(
                        self.bodies@[k],
                        page_start(k),
                    ) by {
                        if k < self.done - 1 {
                            assert(self.parts@[k] == old_parts[k]);
                            assert(self.bodies@[k] == old_bodies[k]);
                        }
                    }
                    assert forall|k: int, i: int|
                        0 <= k < self.done && 0 <= i < self.parts@[k].len() implies page_start(k)
                            < (#[trigger] self.parts@[k][i]).rank <= page_start(k)
                            + document_match_count(self.bodies@[k], "tr.item"@) by {
                        if k < self.done - 1 {
                            assert(self.parts@[k] == old_parts[k]);
                            assert(self.bodies@[k] == old_bodies[k]);
                        } else {
                            assert(part[i] == self.parts@[k][i]);
                        }
                    }
                }
                Ok(())
            },
            Err(e) => Err(e),
        }
    }

    /// The list once every page is in: by increasing rank, for each rank
    /// the first book that had it. It is never empty, and every rank is at
    /// least 1.
    pub fn finish(self) -> (r: Vec<DoubanBook>)
        requires
            self.wf(),
            self.pages_done() == page_count(),
        ensures
            sorted_first_by_rank(self.collected(), r@),
            r.len() > 0,
            forall|i: int| 0 <= i < r.len() ==> 1 <= #[trigger] r[i].rank,
    {
        proof {
            assert(has_rank(self.parts()[0], self.parts()[0][0].rank_spec()));
            lemma_concat_ranked(self.parts(), self.parts()[0][0].rank_spec());
        }
        let ghost c = self.collected@;
        proof {
            lemma_book_ranks_positive(self.parts(), self.bodies());
        }
        let r = sort_dedup_by_rank(self.collected);
        proof {
            let i = choose|i: int| 0 <= i < c.len() && c[i].rank_spec() == self.parts()[0][0].rank_spec();
            assert(has_rank(r@, c[i].rank_spec()));
            assert forall|j: int| 0 <= j < r.len() implies 1 <= #[trigger] r[j].rank by {
                assert(is_first_record(c, r@[j]));
                let t = choose|t: int| 0 <= t < c.len() && c[t] == r@[j] && first_of_its_rank(c, t);
                assert(c[t].rank >= 1);
            }
        }
        r
    }
}

proof fn lemma_book_ranks_positive(parts: Seq<Seq<DoubanBook>>, bodies: Seq<Seq<char>>)
    requires
        bodies.len() == parts.len(),
        forall|k: int, i: int|
            0 <= k < parts.len() && 0 <= i < parts[k].len() ==> page_start(k)
                < (#[trigger] parts[k][i]).rank <= page_start(k) + document_match_count(
                bodies[k],
                "tr.item"@,
            ),
    ensures
        forall|t: int| 0 <= t < concat_parts(parts).len() ==> 1 <= #[trigger] concat_parts(parts)[t].rank,
    decreases parts.len(),
{
    if parts.len() > 0 {
        let front = parts.drop_last();
        let fb = bodies.drop_last();
        assert forall|k: int, i: int|
            0 <= k < front.len() && 0 <= i < front[k].len() implies page_start(k)
                < (#[trigger] front[k][i]).rank <= page_start(k) + document_match_count(
                fb[k],
                "tr.item"@,
            ) by {
            assert(front[k] == parts[k]);
            assert(fb[k] == bodies[k]);
        }
        lemma_book_ranks_positive(front, fb);
        let c = concat_parts(front);
        let last = parts.last();
        assert forall|t: int| 0 <= t < (c + last).len() implies 1 <= #[trigger] (c + last)[t].rank by {
            if t >= c.len() {
                assert((c + last)[t] == last[t - c.len()]);
                assert(parts[parts.len() - 1][t - c.len()] == last[t - c.len()]);
            } else {
                assert((c + last)[t] == c[t]);
            }
        }
    }
}

// ---------------------------------------------------------------------------
// A full list
// ---------------------------------------------------------------------------

/// A page of the book list with exactly one full page of items, each of
/// which has a title link.
pub open spec fn full_book_page(html: Seq<char>) -> bool {
    &&& selector_parses("tr.item"@)
    &&& selector_parses(".pl2 a"@)
    &&& document_match_count(html, "tr.item"@) == PAGE_SIZE
    &&& forall|i: int|
        0 <= i < PAGE_SIZE ==> #[trigger] element_match_count(
            html,
            seq![("tr.item"@, i as usize)],
            ".pl2 a"@,
        ) > 0
}

proof fn lemma_full_books_upto(html: Seq<char>, start: usize, n: nat)
    requires
        n <= PAGE_SIZE,
        start + PAGE_SIZE <= usize::MAX,
        full_book_page(html),
    ensures
        books_upto(html, start, n).len() == n,
        forall|i: int| 0 <= i < n ==> #[trigger] books_upto(html, start, n)[i].rank == start + i + 1,
    decreases n,
{
    if n > 0 {
        lemma_full_books_upto(html, start, (n - 1) as nat);
        let at = seq![("tr.item"@, (n - 1) as usize)];
        assert(element_match_count(html, at, ".pl2 a"@) > 0);
        assert(book_at(html, at, (start + n) as usize) is Some);
    }
}

proof fn lemma_concat_full_parts(parts: Seq<Seq<DoubanBook>>)
    requires
        forall|k: int| 0 <= k < parts.len() ==> (#[trigger] parts[k]).len() == PAGE_SIZE,
        forall|k: int, i: int|
            0 <= k < parts.len() && 0 <= i < PAGE_SIZE ==> (#[trigger] parts[k][i]).rank == k
                * PAGE_SIZE + i + 1,
    ensures
        concat_parts(parts).len() == parts.len() * PAGE_SIZE,
        forall|t: int|
            0 <= t < parts.len() * PAGE_SIZE ==> #[trigger] concat_parts(parts)[t].rank == t + 1,
    decreases parts.len(),
{
    if parts.len() > 0 {
        let front = parts.drop_last();
        assert forall|k: int| 0 <= k < front.len() implies (#[trigger] front[k]).len() == PAGE_SIZE by {
            assert(front[k] == parts[k]);
        }
        assert forall|k: int, i: int|
            0 <= k < front.len() && 0 <= i < PAGE_SIZE implies (#[trigger] front[k][i]).rank == k
                * PAGE_SIZE + i + 1 by {
            assert(front[k] == parts[k]);
        }
        lemma_concat_full_parts(front);
        let c = concat_parts(front);
        let last = parts.last();
        let m = front.len();
        assert(last == parts[m as int]);
        assert forall|t: int| 0 <= t < parts.len() * PAGE_SIZE implies #[trigger] (c + last)[t].rank
            == t + 1 by {
            if t >= m * PAGE_SIZE {
                assert((c + last)[t] == last[t - m * PAGE_SIZE]);
                assert(parts[m as int][t - m * PAGE_SIZE].rank == m * PAGE_SIZE + (t - m * PAGE_SIZE)
                    + 1);
            } else {
                assert((c + last)[t] == c[t]);
            }
        }
    }
}

/// When every one of the ten pages of the book list is full (25 items, each
/// with a title link), the finished list holds 250 books ranked 1 to 250,
/// in order.
pub proof fn lemma_full_book_list(bodies: Seq<Seq<char>>, parts: Seq<Seq<DoubanBook>>, out: Seq<DoubanBook>)
    requires
        bodies.len() == page_count(),
        parts.len() == page_count(),
        forall|k: int| 0 <= k < page_count() ==> full_book_page(#[trigger] bodies[k]),
        forall|k: int|
            0 <= k < page_count() ==> book_records(#[trigger] parts[k]) == books_in(
                bodies[k],
                page_start(k),
            ),
        sorted_first_by_rank(concat_parts(parts), out),
    ensures
        out.len() == TOTAL_COUNT,
        forall|i: int| 0 <= i < TOTAL_COUNT ==> #[trigger] out[i].rank == i + 1,
{
    assert forall|k: int| 0 <= k < parts.len() implies (#[trigger] parts[k]).len() == PAGE_SIZE && (
    forall|i: int| 0 <= i < PAGE_SIZE ==> #[trigger] parts[k][i].rank == k * PAGE_SIZE + i + 1) by {
        assert(full_book_page(bodies[k]));
        lemma_full_books_upto(bodies[k], page_start(k), PAGE_SIZE as nat);
        assert(books_in(bodies[k], page_start(k)) == books_upto(bodies[k], page_start(k), PAGE_SIZE as nat));
        assert(book_records(parts[k]).len() == parts[k].len());
        let start = page_start(k);
        assert(start == k * PAGE_SIZE);
        let up = books_upto(bodies[k], start, PAGE_SIZE as nat);
        assert(book_records(parts[k]) == up);
        assert forall|i: int| 0 <= i < PAGE_SIZE implies #[trigger] parts[k][i].rank == k * PAGE_SIZE + i + 1 by {
            assert(book_records(parts[k])[i] == parts[k][i].deep_view());
            assert(up[i].rank == start + i + 1);
        }
    }
    lemma_concat_full_parts(parts);
    let items = concat_parts(parts);
    assert forall|t: int| 0 <= t < items.len() implies 1 <= #[trigger] items[t].rank_spec()
        <= TOTAL_COUNT by {}
    assert forall|r: usize| 1 <= r <= TOTAL_COUNT implies has_rank(items, r) by {
        assert(items[r - 1].rank_spec() == r);
    }
    lemma_ranks_one_to_n(items, out, TOTAL_COUNT as nat);
    assert forall|i: int| 0 <= i < TOTAL_COUNT implies #[trigger] out[i].rank == i + 1 by {
        assert(out[i].rank_spec() == i + 1);
    }
}

} // verus!

verus! {

/// When every one of the ten pages added to a book walk is full (25 items,
/// each with a title link), its finished list holds 250 books ranked 1 to
/// 250, in order.
pub proof fn lemma_full_book_walk(w: BookWalk, out: Seq<DoubanBook>)
    requires
        w.wf(),
        w.pages_done() == page_count(),
        forall|k: int| 0 <= k < page_count() ==> full_book_page(#[trigger] w.bodies()[k]),
        sorted_first_by_rank(w.collected(), out),
    ensures
        out.len() == TOTAL_COUNT,
        forall|i: int| 0 <= i < TOTAL_COUNT ==> #[trigger] out[i].rank == i + 1,
{
    assert forall|k: int| 0 <= k < page_count() implies book_records(#[trigger] w.parts()[k])
        == books_in(w.bodies()[k], page_start(k)) by {}
    lemma_full_book_list(w.bodies(), w.parts(), out);
}

} // verus!
