[package]
name = "calmerge"
version = "0.1.0"
edition = "2021"
publish = false

[dependencies]
arc-swap = "*"
axum = "*"
chrono = "*"
futures = "*"
reqwest = { version = "*", default-features = false }
serde = { version = "*", features = ["derive"] }
serde_json = "*"
tokio = { version = "*", features = ["rt-multi-thread", "macros", "net", "time"] }
toml = "*"
tracing = "*"
tracing-subscriber = "*"
