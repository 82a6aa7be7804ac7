[package]
name = "version_watch"
version = "0.1.0"
edition = "2021"
publish = false

[dependencies]
rayon = "1"
regex = "1"
scraper = "*"
serde = { version = "1", features = ["derive"] }
serde_json = "1"
ureq = "2"
