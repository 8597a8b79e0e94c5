[package]
name = "hsmusicifier"
version = "0.1.0"
edition = "2021"
publish = false

[dependencies]
anyhow = "1"
attohttpc = "*"
chrono = { version = "0.4", default-features = false, features = ["std"] }
clap = { version = "3", features = ["derive"] }
htmlescape = "0.3"
iui = "*"
lofty = "*"
nfd = "*"
rayon = "1"
scraper = "*"
serde = { version = "1", features = ["derive"] }
serde_json = "1"
url = "2"
walkdir = "2"
