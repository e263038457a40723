[package]
name = "vtiger_client"
version = "0.1.0"
edition = "2021"
publish = false

[dependencies]
csv = "=1.3.1"
futures = "0.3.31"
indexmap = { version = "2", features = ["serde"] }
reqwest = { version = "0.12.22", features = ["json", "rustls-tls"] }
serde = { version = "1.0.219", features = ["derive"] }
serde_json = "1.0.140"
tokio = { version = "1.46.1", features = ["full"] }
