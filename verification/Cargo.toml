[package]
name = "ekuke"
version = "0.1.0"
edition = "2021"
publish = false

[dependencies]
regex = "=1.13.1"
uuid = { version = "=1.29.0", features = ["v4"] }
chrono = { version = "=0.4.45", features = ["serde"] }
dirs = "=7.0.0"
serde = { version = "=1.0.229", features = ["derive"] }
serde_json = "=1.0.154"
anyhow = "=1.0.104"
rusqlite = { version = "=0.41.1", features = ["bundled"] }
tokio = { version = "=1.54.1", features = ["sync", "process", "io-util", "rt", "macros"] }
walkdir = "=2.5.0"
zip = { version = "=9.2.2", default-features = false, features = ["deflate"] }
reqwest = { version = "=0.12.28", default-features = false, features = ["json", "rustls-tls"] }
tantivy = "=0.27.0"
