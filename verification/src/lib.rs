//! A small web crawler: fetched pages, their titles and links, the Douban
//! Top 250 lists, and JD prices for the books of a list.
pub mod config;
pub mod crawler;
pub mod dom;
pub mod douban;
pub mod error;
pub mod jd;
pub mod parser;
pub mod ranking;
pub mod storage;
pub mod text;
pub mod urls;

pub use config::CrawlerConfig;
pub use crawler::Page;
pub use error::{CrawlerError, Result};
