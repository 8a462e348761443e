[package]
name = "kobo_metadata"
version = "0.1.0"
edition = "2021"
publish = false

[dependencies]
anyhow = "=1.0.104"
csv = "=1.4.0"
indicatif = "=0.17.11"
reqwest = { version = "=0.12.28", features = ["blocking"] }
scraper = "=0.29.0"
