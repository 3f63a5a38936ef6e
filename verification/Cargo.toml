[package]
name = "rust_engineio"
version = "0.1.0"
edition = "2021"
publish = false

[dependencies]
url = "2"
base64 = "0.21"
bytes = "1"
crossbeam-utils = "0.8"
http = "0.2"
native-tls = "0.2"
serde = { version = "1", features = ["derive"] }
serde_json = "1"
