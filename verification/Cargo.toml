[package]
name = "gateway"
version = "0.1.0"
edition = "2021"
publish = false

[dependencies]
dashmap = "6"
sha2 = "0.10"
hex = "0.4"
serde = { version = "1", features = ["derive"] }
serde_json = "1"
thiserror = "1"
tokio = { version = "1", features = ["full"] }
axum = "0.7"
tower-http = { version = "0.5", features = ["cors", "trace"] }
async-graphql = { version = "7", default-features = false }
reqwest = { version = "0.12", default-features = false, features = ["json"] }
rand = "0.8"
tracing = "0.1"
tracing-subscriber = { version = "0.3", features = ["env-filter", "json", "time"] }
