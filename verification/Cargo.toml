[package]
name = "rsbin"
version = "0.1.3"
edition = "2021"
publish = false

[dependencies]
anyhow = "1"
async-trait = "0.1"
bytes = "1"
bzip2 = "0.5"
clap = { version = "4", features = ["derive"] }
dirs = "6"
flate2 = "1"
glob = "0.3"
regex = "1"
reqwest = { version = "0.12", default-features = false, features = ["json", "rustls-tls"] }
scraper = "0.23"
serde = { version = "1", features = ["derive"] }
serde_json = "1"
serde_yaml = "0.9"
tar = "0.4"
tempfile = "3"
tokio = { version = "1", features = ["macros", "rt-multi-thread", "time"] }
url = "2"
xz2 = "0.1"
zip = "2"
zstd = "0.13"
