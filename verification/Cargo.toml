[package]
name = "rust_crawler"
version = "0.1.0"
edition = "2021"
publish = false

[dependencies]
url = "2"
scraper = "*"
reqwest = { version = "*", default-features = false, features = ["blocking"] }
clap = "2"
indicatif = "*"
