[package]
name = "media_mirror"
version = "0.1.0"
edition = "2021"
publish = false

[dependencies]
url = "*"
scraper = "*"
serde_json = "*"
csv = "*"
reqwest = { version = "*", default-features = false, features = ["blocking"] }
