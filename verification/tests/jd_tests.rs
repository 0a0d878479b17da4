use webcrawler::douban::DoubanBook;
use webcrawler::jd::{
    book_price_result, build_search_url, jd_headers, accept_price_page, complete_item, normalize_cookie,
    normalize_jd_url, parse_first_search_item, price_url, read_search_page, select_price,
    JdPrice, JdSearchItem, PriceCrawl,
};
use webcrawler::{CrawlerError, Page};

fn book(rank: usize, title: &str) -> DoubanBook {
    DoubanBook {
        rank,
        title: title.to_string(),
        rating_text: None,
        rating_people: None,
        quote: None,
        publish_info: format!("info {rank}"),
        url: String::new(),
    }
}

fn item(title: &str) -> JdSearchItem {
    JdSearchItem {
        sku: "1".to_string(),
        title: title.to_string(),
        shop: None,
        item_url: "https://item.jd.com/1.html".to_string(),
        price: None,
    }
}

const SEARCH_PAGE: &str = r#"<html><body><ul class="gl-warp">
<li class="gl-item" data-sku="  "><div class="p-name"><a href="//item.jd.com/9.html"><em>skip</em></a></div></li>
<li class="gl-item"><div class="p-name"><em>no sku</em></div></li>
<li class="gl-item" data-sku=" 12345 "><div class="p-name"><a href="//item.jd.com/12345.html" title="t"><em>Rust <font class="skcolor">编程</font>
   之道</em></a></div><div class="p-shop"><span><a>某某书店</a></span></div></li>
<li class="gl-item" data-sku="777"></li>
</ul></body></html>"#;

#[test]
fn jd_links_are_made_absolute() {
    assert_eq!(normalize_jd_url("//item.jd.com/1.html"), "https://item.jd.com/1.html");
    assert_eq!(normalize_jd_url("/2.html"), "https://item.jd.com/2.html");
    assert_eq!(normalize_jd_url("https://x.jd.com/3.html"), "https://x.jd.com/3.html");
    assert_eq!(normalize_jd_url(""), "");
}

#[test]
fn the_first_readable_item_is_taken() {
    let found = parse_first_search_item(SEARCH_PAGE).unwrap();
    assert_eq!(found.sku, "12345");
    assert_eq!(found.title, "Rust 编程 之道");
    assert_eq!(found.shop.as_deref(), Some("某某书店"));
    assert_eq!(found.item_url, "https://item.jd.com/12345.html");
    assert_eq!(found.price, None);
}

#[test]
fn an_item_without_link_or_name() {
    let html = r#"<ul><li class="gl-item" data-sku="777"><div class="p-shop">  Shop  Name </div></li></ul>"#;
    let found = parse_first_search_item(html).unwrap();
    assert_eq!(found.sku, "777");
    assert_eq!(found.title, "");
    assert_eq!(found.shop.as_deref(), Some("Shop Name"));
    assert_eq!(found.item_url, "https://item.jd.com/777.html");
    assert!(parse_first_search_item("<ul><li>x</li></ul>").is_none());
}

#[test]
fn urls_of_the_search_and_the_price() {
    assert_eq!(
        build_search_url("Rust 编程").unwrap(),
        "https://search.jd.com/Search?keyword=Rust+%E7%BC%96%E7%A8%8B&enc=utf-8&wq=Rust+%E7%BC%96%E7%A8%8B"
    );
    assert_eq!(price_url("12345").unwrap(), "https://p.3.cn/prices/mgets?skuIds=J_12345&type=1");
}

#[test]
fn the_price_of_the_item() {
    let prices = vec![
        JdPrice { id: "J_1".to_string(), p: "10.00".to_string() },
        JdPrice { id: "J_12345".to_string(), p: "59.90".to_string() },
        JdPrice { id: "J_12345".to_string(), p: "1.00".to_string() },
    ];
    assert_eq!(select_price(&prices, "12345"), Some("59.90".to_string()));
    assert_eq!(select_price(&prices, "2"), None);
    let none = vec![JdPrice { id: "J_5".to_string(), p: "-1".to_string() }, JdPrice { id: "J_5".to_string(), p: "3".to_string() }];
    assert_eq!(select_price(&none, "5"), None);
    assert_eq!(select_price(&vec![], "5"), None);
}

#[test]
fn cookies_are_trimmed() {
    assert_eq!(normalize_cookie(Some("  a=b; c=d \n".to_string())), Some("a=b; c=d".to_string()));
    assert_eq!(normalize_cookie(Some("   ".to_string())), None);
    assert_eq!(normalize_cookie(None), None);
}

#[test]
fn search_pages_are_screened() {
    let blocked = Page::new("https://www.jd.com/risk_handler/x?y=1".to_string(), 200, SEARCH_PAGE.to_string());
    match read_search_page(&blocked) {
        Err(CrawlerError::Message(m)) => assert_eq!(m, "jd search blocked by verification page: https://www.jd.com/risk_handler/x?y=1"),
        other => panic!("unexpected {:?}", other),
    }
    let refused = Page::new("https://search.jd.com/Search?keyword=x".to_string(), 503, String::new());
    match read_search_page(&refused) {
        Err(CrawlerError::Message(m)) => assert_eq!(m, "jd search request failed: 503 Service Unavailable https://search.jd.com/Search?keyword=x"),
        other => panic!("unexpected {:?}", other),
    }
    let good = Page::new("https://search.jd.com/Search?keyword=x".to_string(), 200, SEARCH_PAGE.to_string());
    assert_eq!(read_search_page(&good).unwrap().unwrap().sku, "12345");
    let nothing = Page::new("https://search.jd.com/Search?keyword=x".to_string(), 200, "<p/>".to_string());
    assert!(read_search_page(&nothing).unwrap().is_none());
}

#[test]
fn price_pages_are_screened() {
    let refused = Page::new("https://p.3.cn/prices/mgets?skuIds=J_1&type=1".to_string(), 404, String::new());
    match accept_price_page(&refused) {
        Err(CrawlerError::Message(m)) => assert_eq!(m, "jd price request failed: 404 Not Found https://p.3.cn/prices/mgets?skuIds=J_1&type=1"),
        other => panic!("unexpected {:?}", other),
    }
    let ok = Page::new("https://p.3.cn/prices/mgets?skuIds=J_1&type=1".to_string(), 200, "[]".to_string());
    assert!(accept_price_page(&ok).is_ok());
}

#[test]
fn a_found_item_is_completed() {
    let b = book(1, "红楼梦");
    let done = complete_item(item(""), Some("9.9".to_string()), &b);
    assert_eq!(done.title, "红楼梦");
    assert_eq!(done.price.as_deref(), Some("9.9"));
    let kept = complete_item(item("Own"), None, &b);
    assert_eq!(kept.title, "Own");
    assert_eq!(kept.price, None);
}

#[test]
fn one_result_per_book_in_order() {
    let books = vec![book(1, "a"), book(2, "b"), book(3, "c")];
    let mut crawl = PriceCrawl::new(books);
    let mut n = 0;
    while let Some(b) = crawl.next_book() {
        let _ = b;
        let outcome = match n {
            0 => Ok(Some(item("x"))),
            1 => Err("jd search request failed".to_string()),
            _ => Ok(None),
        };
        crawl.record(outcome).unwrap();
        n += 1;
    }
    let results = crawl.finish();
    assert_eq!(results.len(), 3);
    assert_eq!(results[0].rank, 1);
    assert_eq!(results[0].item.as_ref().unwrap().title, "x");
    assert_eq!(results[0].error, None);
    assert_eq!(results[1].douban_title, "b");
    assert!(results[1].item.is_none());
    assert_eq!(results[1].error.as_deref(), Some("jd search request failed"));
    assert_eq!(results[2].douban_publish_info, "info 3");
    assert!(results[2].item.is_none() && results[2].error.is_none());
    assert_eq!(results[2].search_url, "https://search.jd.com/Search?keyword=c&enc=utf-8&wq=c");
    assert_eq!(results[0].search_url, build_search_url("a").unwrap());
}

#[test]
fn a_single_result() {
    let r = book_price_result(&book(9, "t"), "u".to_string(), Err("boom".to_string()));
    assert_eq!(r.rank, 9);
    assert_eq!(r.error.as_deref(), Some("boom"));
    assert!(r.item.is_none());
}

#[test]
fn headers_of_a_jd_request() {
    assert!(jd_headers(None).unwrap().is_none());
    assert_eq!(
        jd_headers(Some("a=b".to_string())).unwrap().unwrap(),
        vec![
            ("cookie".to_string(), "a=b".to_string()),
            ("referer".to_string(), "https://www.jd.com/".to_string()),
        ]
    );
    match jd_headers(Some("a\nb".to_string())) {
        Err(CrawlerError::Message(m)) => assert_eq!(m, "invalid JD_COOKIE header value: failed to parse header value"),
        other => panic!("unexpected {:?}", other),
    }
}

#[test]
fn which_cookies_may_be_sent() {
    assert!(jd_headers(Some("a\tb".to_string())).unwrap().is_some());
    assert!(jd_headers(Some("名=值".to_string())).unwrap().is_some());
    assert!(jd_headers(Some("a\u{7f}".to_string())).is_err());
    assert!(jd_headers(Some("a\u{1f}b".to_string())).is_err());
}
