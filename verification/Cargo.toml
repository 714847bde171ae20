[package]
name = "wiki"
version = "0.1.0"
edition = "2021"
publish = false

[dependencies]
sha2 = "0.8"
serde_yaml = "0.8"
pulldown-cmark = { version = "0.9", default-features = false }
serde = { version = "1", features = ["derive"] }
serde_json = "1"
walkdir = "2"
notify = "4"
clap = "2"
config = { version = "0.9", default-features = false, features = ["yaml"] }
slog = "2"
slog-term = "2"
slog-async = "2"
slog-scope = "4"
failure = "0.1"
rocksdb = { version = "0.12", default-features = false }
tantivy = "0.9"
actix = "0.7"
actix-web = { version = "0.7", default-features = false }
typed-html = "0.2"
futures = "0.3"
