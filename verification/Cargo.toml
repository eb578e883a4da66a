[package]
name = "payments_engine"
version = "0.1.0"
edition = "2021"
publish = false

[dependencies]
csv = "1"
futures = "0.3"
serde = { version = "1", features = ["derive"] }
tokio = { version = "1", features = ["rt-multi-thread", "sync"] }
