[package]
name = "hla_rti"
version = "0.1.0"
edition = "2021"
publish = false

[dependencies]
bytes = "1"
dashmap = "6"
parking_lot = "0.12"
serde = { version = "1", features = ["derive"] }
serde_json = "1"
thiserror = "1"
tokio = { version = "1", features = ["rt", "rt-multi-thread", "net", "sync", "time", "macros", "io-util"] }
tokio-rustls = "0.26"
tokio-tungstenite = "0.24"
tokio-util = "0.7"
tracing = "0.1"
