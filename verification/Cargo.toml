[package]
name = "cdn_cache"
version = "0.1.0"
edition = "2021"
publish = false

[dependencies]
actix-web = "4"
dashmap = "6"
moka = { version = "0.12", features = ["sync", "future"] }
rand = "0.9"
serde = { version = "1", features = ["derive"] }
serde_json = "1"
thiserror = "2"
tokio = { version = "1", features = ["full"] }
tracing = "0.1"
tracing-subscriber = "0.3"
