[package]
name = "jsonrpc_dispatch"
version = "0.1.0"
edition = "2021"
publish = false

[dependencies]
actix-web = "4"
bytes = "1"
futures-util = "0.3"
serde = { version = "1", features = ["derive"] }
serde_json = "1"
