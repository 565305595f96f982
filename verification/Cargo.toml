[package]
name = "rust_tradier"
version = "0.1.0"
edition = "2021"
publish = false

[dependencies]
tokio = { version = "=1.53.2", features = ["sync", "rt", "rt-multi-thread", "net", "time", "macros"] }
chrono = "=0.4.45"
serde = { version = "=1.0.229", features = ["derive"] }
serde_json = "=1.0.151"
reqwest = { version = "=0.12.28", default-features = false }
tokio-tungstenite = "=0.24.0"
futures-util = "=0.3.34"
tokio-util = "=0.7.19"
anyhow = "=1.0.104"
