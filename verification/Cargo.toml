[package]
name = "table_extractor"
version = "0.1.0"
edition = "2021"
publish = false

[dependencies]
clap = "*"
scraper = "*"
serde = { version = "*", features = ["derive"] }
serde_json = "*"
