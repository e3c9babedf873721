[package]
name = "ait"
version = "0.1.0"
edition = "2021"
publish = false

[dependencies]
aho-corasick = "=1.1.5"
chrono = "=0.4.45"
serde = { version = "=1.0.229", features = ["derive"] }
serde_json = "=1.0.154"
config = { version = "=0.15.27", default-features = false, features = ["toml"] }
sha2 = "=0.11.1"
hex = "=0.4.3"
reqwest = { version = "=0.13.5", default-features = false }
tokio = { version = "=1.54.1", features = ["rt-multi-thread", "macros", "net", "time", "signal", "sync"] }
axum = "=0.8.9"
uuid = { version = "=1.29.0", features = ["v4"] }
rand = "=0.10.3"
dashmap = "=6.2.1"
tracing = "=0.1.44"
tracing-subscriber = { version = "=0.3.23", features = ["env-filter"] }
rusqlite = { version = "=0.41.1", features = ["bundled"] }
futures-util = "*"
bytes = "*"
tokio-util = "*"
tower-http = { version = "*", features = ["cors", "trace"] }
