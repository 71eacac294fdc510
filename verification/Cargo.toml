[package]
name = "nexo-plugin-email"
version = "0.5.0"
edition = "2021"
publish = false

[dependencies]
base64 = "=0.22.1"
serde = { version = "=1.0.229", features = ["derive"] }
serde_yaml = "=0.9.34"
serde_json = "=1.0.154"
tokio = { version = "=1.54.1", features = ["sync", "rt-multi-thread", "macros"] }
tracing = "=0.1.44"
tracing-subscriber = { version = "=0.3.23", features = ["env-filter"] }
anyhow = "=1.0.104"
thiserror = "=1.0.69"
once_cell = "=1.21.4"
rustls = { version = "=0.23.46", default-features = false, features = ["ring", "std"] }
nexo-auth = "=0.1.9"
nexo-broker = "=0.1.6"
nexo-config = "=0.1.10"
nexo-microapp-sdk = { version = "=0.1.20", features = ["plugin"] }
