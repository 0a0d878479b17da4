use webcrawler::douban::{
    accept_book_page, accept_movie_page, BookWalk, MovieWalk, book_page_url, movie_page_url, page_starts,
    parse_book_top250_page, parse_top250_page, DoubanBook, DoubanMovie,
};
use webcrawler::ranking::sort_dedup_by_rank;
use webcrawler::{CrawlerError, Page};

const MOVIE_ITEM: &str = r#"<div class="item">
  <div class="pic"><em class="">RANK</em><a href="https://movie.douban.com/subject/1292052/"><img src="x.jpg"></a></div>
  <div class="info">
    <div class="hd"><a href="https://movie.douban.com/subject/1292052/" class=""><span class="title">肖申克的救赎</span><span class="title">&nbsp;/&nbsp;The Shawshank Redemption</span><span class="other">&nbsp;/&nbsp;月黑高飞(港)  /  刺激1995(台)</span></a></div>
    <div class="bd"><p class="">导演: 弗兰克·德拉邦特 Frank Darabont<br>
        1994&nbsp;/&nbsp;美国&nbsp;/&nbsp;犯罪 剧情</p>
      <div class="star"><span class="rating5-t"></span><span class="rating_num" property="v:average">9.7</span><span property="v:best" content="10.0"></span><span>3158430人评价</span></div>
      <p class="quote"><span class="inq">希望让人自由。</span></p>
    </div></div></div>"#;

fn movie_page(ranks: &[&str]) -> String {
    let items: Vec<String> = ranks.iter().map(|r| format!("<li>{}</li>", MOVIE_ITEM.replace("RANK", r))).collect();
    format!("<html><body><ol class=\"grid_view\">{}</ol></body></html>", items.join(""))
}

fn movie(rank: usize, title: &str) -> DoubanMovie {
    DoubanMovie {
        rank,
        title: title.to_string(),
        original_title: None,
        rating_text: None,
        rating_people: None,
        quote: None,
        info: String::new(),
        url: String::new(),
    }
}

#[test]
fn a_movie_is_read_from_its_item() {
    let movies = parse_top250_page(&movie_page(&["1"]));
    assert_eq!(movies.len(), 1);
    let m = &movies[0];
    assert_eq!(m.rank, 1);
    assert_eq!(m.title, "肖申克的救赎");
    assert_eq!(m.original_title.as_deref(), Some("/ 月黑高飞(港) / 刺激1995(台)"));
    assert_eq!(m.rating_text.as_deref(), Some("9.7"));
    assert_eq!(m.rating_people, Some(3158430));
    assert_eq!(m.quote.as_deref(), Some("希望让人自由。"));
    assert_eq!(m.info, "导演: 弗兰克·德拉邦特 Frank Darabont 1994 / 美国 / 犯罪 剧情");
    assert_eq!(m.url, "https://movie.douban.com/subject/1292052/");
}

#[test]
fn items_without_a_usable_rank_are_left_out() {
    let movies = parse_top250_page(&movie_page(&["3", "x", "", "+4", "-5"]));
    let ranks: Vec<usize> = movies.iter().map(|m| m.rank).collect();
    assert_eq!(ranks, vec![3, 4]);
}

#[test]
fn a_page_without_items_gives_no_movie() {
    assert!(parse_top250_page("<html><body><p>busy</p></body></html>").is_empty());
    assert!(parse_top250_page("").is_empty());
}

const BOOK_ITEM: &str = r#"<tr class="item">
<td><a class="nbg" href="https://book.douban.com/subject/1007305/"><img src="x.jpg"></a></td>
<td><div class="pl2"><a href="https://book.douban.com/subject/1007305/" TITLEATTR>
   红楼梦
   <span>Dream</span></a></div>
<p class="pl">[清] 曹雪芹 著 / 人民文学出版社 / 1996-12 / 59.70元</p>
<div class="star clearfix"><span class="allstar50"></span><span class="rating_nums">9.6</span><span class="pl">(
  432005人评价
)</span></div>
<p class="quote"><span class="inq">都云作者痴，谁解其中味？</span></p></td></tr>"#;

fn book_page(title_attrs: &[&str]) -> String {
    let items: Vec<String> = title_attrs.iter().map(|t| BOOK_ITEM.replace("TITLEATTR", t)).collect();
    format!("<html><body><table>{}</table></body></html>", items.join(""))
}

#[test]
fn books_are_ranked_by_position() {
    let html = book_page(&["title=\" 红楼梦 \"", "title=\"  \"", ""]);
    let books = parse_book_top250_page(&html, 25);
    assert_eq!(books.len(), 3);
    assert_eq!(books[0].rank, 26);
    assert_eq!(books[1].rank, 27);
    assert_eq!(books[2].rank, 28);
    assert_eq!(books[0].title, "红楼梦");
    assert_eq!(books[1].title, "红楼梦 Dream");
    assert_eq!(books[2].title, "红楼梦 Dream");
    let b = &books[0];
    assert_eq!(b.rating_text.as_deref(), Some("9.6"));
    assert_eq!(b.rating_people, Some(432005));
    assert_eq!(b.quote.as_deref(), Some("都云作者痴，谁解其中味？"));
    assert_eq!(b.publish_info, "[清] 曹雪芹 著 / 人民文学出版社 / 1996-12 / 59.70元");
    assert_eq!(b.url, "https://book.douban.com/subject/1007305/");
}

#[test]
fn a_book_item_without_title_link_keeps_its_position() {
    let html = format!(
        "<html><body><table><tr class=\"item\"><td>nothing</td></tr>{}</table></body></html>",
        BOOK_ITEM.replace("TITLEATTR", "title=\"x\"")
    );
    let books = parse_book_top250_page(&html, 0);
    assert_eq!(books.len(), 1);
    assert_eq!(books[0].rank, 2);
}

#[test]
fn the_list_has_ten_pages() {
    assert_eq!(page_starts(), vec![0, 25, 50, 75, 100, 125, 150, 175, 200, 225]);
}

#[test]
fn page_urls() {
    assert_eq!(movie_page_url(0).unwrap(), "https://movie.douban.com/top250?start=0&filter=");
    assert_eq!(movie_page_url(225).unwrap(), "https://movie.douban.com/top250?start=225&filter=");
    assert_eq!(book_page_url(25).unwrap(), "https://book.douban.com/top250?start=25");
}

#[test]
fn a_refused_movie_page_is_an_error() {
    let page = Page::new("https://movie.douban.com/top250?start=0&filter=".to_string(), 403, movie_page(&["1"]));
    match accept_movie_page(&page) {
        Err(CrawlerError::Message(m)) => assert_eq!(m, "douban request failed: 403 Forbidden https://movie.douban.com/top250?start=0&filter="),
        other => panic!("unexpected {:?}", other),
    }
}

#[test]
fn an_empty_movie_page_is_an_error() {
    let page = Page::new("https://movie.douban.com/top250".to_string(), 200, "<p>none</p>".to_string());
    match accept_movie_page(&page) {
        Err(CrawlerError::Message(m)) => assert_eq!(m, "no movies parsed from douban page: https://movie.douban.com/top250"),
        other => panic!("unexpected {:?}", other),
    }
    let good = Page::new("https://movie.douban.com/top250".to_string(), 200, movie_page(&["7"]));
    assert_eq!(accept_movie_page(&good).unwrap()[0].rank, 7);
}

#[test]
fn book_pages_are_screened() {
    let bad = Page::new("https://book.douban.com/top250?start=0".to_string(), 500, String::new());
    match accept_book_page(&bad, 0) {
        Err(CrawlerError::Message(m)) => assert_eq!(m, "douban book request failed: 500 Internal Server Error https://book.douban.com/top250?start=0"),
        other => panic!("unexpected {:?}", other),
    }
    let empty = Page::new("https://book.douban.com/top250?start=0".to_string(), 200, String::new());
    match accept_book_page(&empty, 0) {
        Err(CrawlerError::Message(m)) => assert_eq!(m, "no books parsed from douban page: https://book.douban.com/top250?start=0"),
        other => panic!("unexpected {:?}", other),
    }
    let good = Page::new("https://book.douban.com/top250?start=50".to_string(), 200, book_page(&[""]));
    assert_eq!(accept_book_page(&good, 50).unwrap()[0].rank, 51);
}

#[test]
fn sorting_keeps_the_first_of_each_rank() {
    let movies = vec![movie(3, "c"), movie(1, "a"), movie(3, "c2"), movie(2, "b"), movie(1, "a2")];
    let out = sort_dedup_by_rank(movies);
    let got: Vec<(usize, String)> = out.iter().map(|m| (m.rank, m.title.clone())).collect();
    assert_eq!(got, vec![(1, "a".to_string()), (2, "b".to_string()), (3, "c".to_string())]);
    assert!(sort_dedup_by_rank(Vec::<DoubanBook>::new()).is_empty());
}

#[test]
fn a_walk_visits_ten_pages_and_orders_the_list() {
    let mut walk = MovieWalk::new();
    let mut starts = Vec::new();
    while let Some(start) = walk.next_start() {
        starts.push(start);
        let page = Page::new(
            format!("https://movie.douban.com/top250?start={start}&filter="),
            200,
            movie_page(&[&(250 - start).to_string(), &(start + 1).to_string()]),
        );
        walk.add_page(&page).unwrap();
    }
    assert_eq!(starts, vec![0, 25, 50, 75, 100, 125, 150, 175, 200, 225]);
    let movies = walk.finish();
    let ranks: Vec<usize> = movies.iter().map(|m| m.rank).collect();
    let mut expected: Vec<usize> = (0..10).flat_map(|i| [250 - 25 * i, 25 * i + 1]).collect();
    expected.sort();
    expected.dedup();
    assert_eq!(ranks, expected);
}

#[test]
fn full_book_pages_give_ranks_one_to_250() {
    let mut walk = BookWalk::new();
    let mut pages = 0;
    while let Some(start) = walk.next_start() {
        let titles: Vec<&str> = vec![""; 25];
        let page = Page::new(format!("https://book.douban.com/top250?start={start}"), 200, book_page(&titles));
        walk.add_page(&page).unwrap();
        pages += 1;
    }
    assert_eq!(pages, 10);
    let books = walk.finish();
    assert_eq!(books.len(), 250);
    for (i, b) in books.iter().enumerate() {
        assert_eq!(b.rank, i + 1);
    }
}

#[test]
fn a_refused_page_leaves_the_walk_as_it_was() {
    let mut walk = BookWalk::new();
    let bad = Page::new("https://book.douban.com/top250?start=0".to_string(), 500, String::new());
    assert!(walk.add_page(&bad).is_err());
    assert_eq!(walk.next_start(), Some(0));
    let good = Page::new("https://book.douban.com/top250?start=0".to_string(), 200, book_page(&["", ""]));
    walk.add_page(&good).unwrap();
    assert_eq!(walk.next_start(), Some(25));
}
