[package]
name = "samples"
version = "0.1.0"
edition = "2021"
publish = false

[dependencies]
aes = "=0.9.4"
cbc = { version = "=0.2.1", features = ["alloc", "block-padding"] }
md-5 = "=0.11.0"
sha1 = "=0.11.0"
sha2 = "=0.11.1"
chrono = { version = "=0.4.45", features = ["serde"] }
scraper = "=0.29.0"
ego-tree = "=0.11.1"
html5ever = "=0.40.1"
rss = "=2.1.2"
atom_syndication = "=0.12.10"
httparse = "=1.10.1"
serde = { version = "=1.0.229", features = ["derive"] }
serde_json = "=1.0.154"
serde_yaml = "=0.9.34+deprecated"
clap = { version = "=4.6.7", features = ["derive", "cargo"] }
tokio = { version = "=1.54.1", features = ["full"] }
tokio-stream = "=0.1.19"
tokio-util = { version = "=0.7.20", features = ["io"] }
actix-web = "=4.18.1"
actix-files = "=0.7.3"
axum = "=0.8.9"
minijinja = "=3.0.5"
flate2 = "=1.1.10"
tar = "=0.4.46"
rand = "=0.10.3"
ctrlc = "=3.5.2"
handlebars = "=6.4.4"
pyo3 = "=0.30.1"

[dev-dependencies]
regex = "=1.13.1"
