[package]
name = "iceberg_core"
version = "0.1.0"
edition = "2021"
publish = false

[dependencies]
getrandom = "=0.2.17"
uuid = { version = "=1.27.0", features = ["v4"] }
object_store = "=0.14.2"
serde_json = "=1.0.151"
tokio = { version = "=1.53.2", features = ["rt", "macros"] }
