[package]
name = "recursive_web_loader"
version = "0.1.0"
edition = "2021"
publish = false

[dependencies]
regex = "=1.13.1"
scraper = "=0.29.0"
reqwest = { version = "=0.13.5", default-features = false }
url = "=2.5.8"
ego-tree = "=0.11.1"
