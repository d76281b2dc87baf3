[package]
name = "pf2e_companion"
version = "0.1.0"
edition = "2021"
publish = false

[dependencies]
pulldown-cmark = { version = "0.12", default-features = false }
serde = { version = "1", features = ["derive"] }
serde_json = "1"
serde_yaml = "0.9"
anyhow = "1"
chrono = { version = "0.4", default-features = false, features = ["clock"] }
tracing = "0.1"
async-trait = "0.1"
futures-util = "0.3"
tokio = { version = "1", features = ["sync", "rt", "macros"] }
reqwest = { version = "0.12", default-features = false, features = ["json", "stream", "rustls-tls"] }
rusqlite = { version = "0.32", features = ["bundled"] }
sqlite-vec = "0.1"
notify = "6"
keyring = "3"
include_dir = "0.7"
