[package]
name = "doc_crawler"
version = "0.1.0"
edition = "2021"
publish = false

[dependencies]
reqwest = "*"
scraper = "*"
serde = { version = "1", features = ["derive"] }
serde_json = "1"
tokio = { version = "1", features = ["macros", "rt-multi-thread"] }
url = "2"
