# webcrawler

A small web crawler whose page-reading logic is verified with Verus.

- `src/` is the library. It reads titles and links from fetched pages, reads
  the Douban Top 250 movie and book lists from their HTML pages, orders them
  by rank, and looks up JD prices for the books of a list. HTML parsing and
  CSS selection go through `scraper`, URLs through `url`, and status phrases
  through `reqwest`'s `StatusCode`; the contracts of those calls are stated at
  the calls, in `src/dom.rs`, `src/urls.rs` and `src/crawler/page.rs`.
- `app/` is the command-line program: it fetches pages with `reqwest` and
  `tokio`, reads the configuration (`toml`), reads and writes JSON
  (`serde_json`), and hands page contents to the library.
- `tests/` holds tests on concrete pages and values.

Run `cargo run -- https://www.rust-lang.org`, or one of the commands
`douban-top250`, `douban-book-top250`, `jd-book-prices [input.json] [output.json] [limit]`.
