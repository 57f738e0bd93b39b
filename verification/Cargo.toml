[package]
name = "mango_workspaces"
version = "0.1.0"
edition = "2021"
publish = false

[dependencies]
serde = { version = "1", features = ["derive"] }
serde_json = "1"
schemars = "1"
tokio = { version = "1", features = ["rt", "net", "io-util", "sync", "macros"] }
tokio-stream = "0.1"
futures = "0.3"
tracing = "0.1"
