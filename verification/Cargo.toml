[package]
name = "cc_scraper"
version = "0.1.0"
edition = "2021"
publish = false

[dependencies]
anyhow = "1"
chrono = "0.4"
csv = "1"
reqwest = { version = "0.11", features = ["blocking"] }
select = "*"
serde = { version = "1", features = ["derive"] }
serde_json = "1"
structopt = "0.3"
