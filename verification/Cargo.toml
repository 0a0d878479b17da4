[package]
name = "webcrawler"
version = "0.1.0"
edition = "2021"
publish = false

[dependencies]
anyhow = "1"
reqwest = "0.12"
scraper = "*"
serde = { version = "1", features = ["derive"] }
serde_json = "1"
thiserror = "2"
tokio = { version = "1", features = ["macros", "rt-multi-thread", "time"] }
toml = "0.8"
tracing-subscriber = { version = "0.3", features = ["env-filter", "fmt"] }
url = "2"
