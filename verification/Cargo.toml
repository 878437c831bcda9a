[package]
name = "rust-llm-gateway"
version = "1.0.0"
edition = "2021"
publish = false

[dependencies]
async-stream = "=0.3.6"
axum = "=0.7.9"
bytes = "=1.12.1"
config = { version = "=0.14.1", default-features = false, features = ["toml"] }
dashmap = "=6.2.1"
futures-util = "=0.3.34"
metrics = "=0.24.6"
metrics-exporter-prometheus = { version = "=0.16.2", default-features = false }
moka = { version = "=0.12.16", features = ["sync"] }
reqwest = { version = "=0.12.28", default-features = false, features = ["stream", "json", "http2", "rustls-tls"] }
serde = { version = "=1.0.229", features = ["derive"] }
serde_json = "=1.0.154"
sha2 = "=0.10.9"
tokio = { version = "=1.54.1", features = ["macros", "rt-multi-thread", "net", "time", "signal", "sync"] }
tower-http = { version = "=0.6.11", features = ["limit"] }
tracing = "=0.1.44"
tracing-subscriber = { version = "=0.3.23", features = ["env-filter", "json"] }
uuid = { version = "=1.29.0", features = ["v4"] }

[dev-dependencies]
toml = "=0.8.23"
