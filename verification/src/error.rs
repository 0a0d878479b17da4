//! The error type shared by the crawler.
use vstd::prelude::*;

verus! {

#[verifier::external_type_specification]
#[verifier::external_body]
pub struct ExReqwestError(reqwest::Error);

#[verifier::external_type_specification]
#[verifier::external_body]
pub struct ExIoError(std::io::Error);

#[verifier::external_type_specification]
#[verifier::external_body]
pub struct ExTomlError(toml::de::Error);

#[verifier::external_type_specification]
#[verifier::external_body]
pub struct ExJsonError(serde_json::Error);

/// Why a crawl step failed.
#[derive(Debug)]
pub enum CrawlerError {
    /// The HTTP request failed.
    Request(reqwest::Error),
    /// A URL did not parse.
    Url(url::ParseError),
    /// Reading or writing a file failed.
    Io(std::io::Error),
    /// The configuration file did not parse.
    Config(toml::de::Error),
    /// JSON did not parse or could not be written.
    Json(serde_json::Error),
    /// Any other failure, described by its message.
    Message(String),
}

/// The result of a crawl step.
pub type Result<T> = std::result::Result<T, CrawlerError>;

} // verus!
