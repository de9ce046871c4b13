[package]
name = "arxiv2md"
version = "0.1.0"
edition = "2021"
publish = false

[dependencies]
clap = { version = "4", features = ["derive"] }
directories = "*"
ego-tree = "*"
flate2 = "1"
pdf-extract = "*"
regex = "1"
reqwest = { version = "0.12", default-features = false, features = ["blocking", "rustls-tls"] }
roxmltree = "*"
scraper = "*"
serde = { version = "1", features = ["derive"] }
serde_yaml = "0.9"
tar = "*"
tempfile = "3"
thiserror = "*"
walkdir = "2"
