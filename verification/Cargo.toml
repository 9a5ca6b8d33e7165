[package]
name = "rustspeak"
version = "0.1.0"
edition = "2021"
publish = false

[dependencies]
bytes = "1"
sha2 = "0.10"
ripemd = "0.1"
rand = "0.8"
openssl = "0.10"
ruint = "1"
uuid = "1"
serde = { version = "1", features = ["derive"] }
serde_json = "1"
anyhow = "1"
dirs = "5"
colored = "2"
console = "0.15"
sled = "0.34"
tokio = { version = "1", features = ["full"] }
quinn = "0.10"
rustls = "0.21"
rcgen = "0.11"
rustls-pemfile = "1"
dashmap = "5"
crossbeam-utils = "0.8"
pollster = "0.3"
arc-swap = "1"
futures = "0.3"
