[package]
name = "aoxy"
version = "0.1.0"
edition = "2021"
publish = false

[dependencies]
axum = "0.8"
backoff = { version = "0.4", features = ["tokio"] }
base64 = "0.22"
bytes = "1"
clap = { version = "4", features = ["derive", "env"] }
deadpool-redis = "0.22"
futures = "0.3"
governor = "0.10"
reqwest = { version = "0.12", default-features = false, features = ["stream", "socks", "rustls-tls"] }
serde = { version = "1", features = ["derive"] }
serde_json = "1"
sha2 = "0.10"
thiserror = "2"
tokio = { version = "1", features = ["rt-multi-thread", "macros", "net", "time"] }
tracing = "0.1"
tracing-subscriber = { version = "0.3", features = ["env-filter"] }
