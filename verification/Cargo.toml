[package]
name = "dbpedia_abstracts"
version = "0.1.0"
edition = "2021"
publish = false

[dependencies]
serde_json = "1"
scraper = "0.23"
url = "2"
reqwest = { version = "0.12", default-features = false, features = ["rustls-tls", "charset", "http2"] }
tokio = { version = "1", features = ["full"] }
