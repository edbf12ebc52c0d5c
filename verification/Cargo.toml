[package]
name = "rust_playground"
version = "0.1.0"
edition = "2021"
publish = false

[dependencies]
chrono = "*"
rand = "*"
xxhash-rust = { version = "*", features = ["xxh3"] }
serde = { version = "*", features = ["derive"] }
axum = "*"
tokio = { version = "*", features = ["full"] }
redis = "*"
mini-redis = "*"
bytes = "*"
