[package]
name = "gleam_finder"
version = "4.0.0"
edition = "2021"
publish = false

[dependencies]
string-tools = "=0.1.0"
url = "=2.5.8"
minreq = { version = "=2.14.1", features = ["https"] }
serde = { version = "=1.0.229", features = ["derive"] }
serde_json = "=1.0.154"
toml = "=0.5.11"
meilisearch-sdk = "=0.33.0"
tokio = { version = "=1.54.1", features = ["rt-multi-thread", "macros"] }
clap = "=2.34.0"
progress_bar = "=0.1.3"
