[package]
name = "jsonrpc2"
version = "0.1.0"
edition = "2021"
publish = false

[dependencies]
serde = { version = "*", features = ["derive"] }
serde_json = { version = "*", features = ["raw_value"] }
