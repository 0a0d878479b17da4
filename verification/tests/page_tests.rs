use webcrawler::crawler::client::client_settings;
use webcrawler::parser::{extract_links, extract_title};
use webcrawler::storage::{NoopStore, PageStore};
use webcrawler::{CrawlerConfig, Page};

#[test]
fn default_config() {
    let c = CrawlerConfig::default();
    assert_eq!(c.user_agent, "webcrawler/0.1");
    assert_eq!(c.request_timeout_secs, 15);
    assert_eq!(c.max_depth, 1);
    assert_eq!(c.request_timeout().as_secs(), 15);
}

#[test]
fn request_timeout_follows_the_config() {
    let c = CrawlerConfig { user_agent: "x".to_string(), request_timeout_secs: 42, max_depth: 3 };
    assert_eq!(c.request_timeout(), std::time::Duration::from_secs(42));
}

#[test]
fn client_settings_of_a_config() {
    let s = client_settings(CrawlerConfig::default());
    assert_eq!(s.user_agent, "webcrawler/0.1");
    assert_eq!(s.accept, "text/html,application/xhtml+xml,application/xml;q=0.9,*/*;q=0.8");
    assert_eq!(s.accept_language, "zh-CN,zh;q=0.9,en;q=0.8");
    assert_eq!(s.timeout_secs, 15);
    assert_eq!(s.max_redirects, 10);
    assert!(!s.use_proxy);
}

#[test]
fn title_is_trimmed() {
    let html = "<html><head><title>\n  Rust   Programming Language  \n</title></head><body></body></html>";
    assert_eq!(extract_title(html), Some("Rust   Programming Language".to_string()));
}

#[test]
fn title_missing_or_blank() {
    assert_eq!(extract_title("<html><body><p>hi</p></body></html>"), None);
    assert_eq!(extract_title("<title>   </title>"), None);
    assert_eq!(extract_title(""), None);
    assert_eq!(extract_title("<title>a</title><title>b</title>"), Some("a".to_string()));
}

#[test]
fn links_are_resolved_and_filtered() {
    let html = r#"<a href="/x">1</a><a href="b">2</a><a href="mailto:me@example.com">3</a>
        <a href="javascript:void(0)">4</a><a href="https://other.org">5</a><a>6</a>
        <a href="//cdn.example.com/z">7</a><a href="tel:123">8</a><a href="http://[::1">9</a>"#;
    let links = extract_links("https://example.com/a/", html);
    assert_eq!(
        links,
        vec![
            "https://example.com/x".to_string(),
            "https://example.com/a/b".to_string(),
            "https://other.org/".to_string(),
            "https://cdn.example.com/z".to_string(),
        ]
    );
    for l in &links {
        assert!(l.starts_with("http://") || l.starts_with("https://"));
    }
}

#[test]
fn relative_links_climb_and_keep_queries() {
    let html = r##"<a href="../c?q=a b">c</a><a href="#top">top</a><a href="HTTP://Example.COM/X">x</a>"##;
    assert_eq!(
        extract_links("https://example.com/a/b", html),
        vec![
            "https://example.com/c?q=a%20b".to_string(),
            "https://example.com/a/b#top".to_string(),
            "http://example.com/X".to_string(),
        ]
    );
}

#[test]
fn links_against_a_bad_base() {
    assert_eq!(extract_links("not a url", "<a href='/x'>x</a>"), Vec::<String>::new());
    assert_eq!(extract_links("not a url", "<a href='https://a.org/x'>x</a>"), Vec::<String>::new());
}

#[test]
fn page_reads_its_body() {
    let page = Page::new(
        "https://www.rust-lang.org/".to_string(),
        200,
        "<title> Rust </title><a href='/learn'>Learn</a><a href='ftp://x.org/f'>f</a>".to_string(),
    );
    assert_eq!(page.title(), Some("Rust".to_string()));
    assert_eq!(page.links(), vec!["https://www.rust-lang.org/learn".to_string()]);
    assert!(page.is_success());
}

#[test]
fn status_text_is_number_and_reason() {
    let mut page = Page::new("https://a.org/".to_string(), 200, String::new());
    assert_eq!(page.status_text(), "200 OK");
    page.status = 404;
    assert_eq!(page.status_text(), "404 Not Found");
    assert!(!page.is_success());
    page.status = 299;
    assert!(page.is_success());
    assert_eq!(page.status_text(), "299 <unknown status code>");
    page.status = 300;
    assert!(!page.is_success());
    page.status = 199;
    assert!(!page.is_success());
    page.status = 42;
    assert_eq!(page.status_text(), "42 <unknown status code>");
}

#[test]
fn noop_store_accepts_everything() {
    let page = Page::new("https://a.org/".to_string(), 500, "x".to_string());
    assert!(NoopStore.save(&page).is_ok());
}
