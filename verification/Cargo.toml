[package]
name = "banking_stage_sidecar"
version = "0.1.0"
edition = "2021"
publish = false

[dependencies]
anyhow = "1"
base64 = "=0.21.7"
bytes = "1"
chrono = "=0.4.45"
clap = { version = "4", features = ["derive"] }
dashmap = "=5.5.3"
futures = "0.3"
itertools = "0.10"
lazy_static = "1"
log = "0.4"
native-tls = "0.2"
postgres-native-tls = "0.5"
prometheus = "0.13"
serde = { version = "1", features = ["derive"] }
serde_json = "1"
tokio = { version = "1", features = ["rt-multi-thread", "macros", "time", "sync"] }
tokio-postgres = { version = "0.7", features = ["with-chrono-0_4"] }
tracing-subscriber = "0.3"
