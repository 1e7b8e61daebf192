[package]
name = "narrowing"
version = "0.1.0"
edition = "2021"
publish = false

[dependencies]
rand = "=0.8.8"
indexmap = { version = "=1.9.3", features = ["serde-1"] }
rustc-hash = "=1.1.0"
glob = "=0.3.4"
serde = { version = "=1.0.229", features = ["derive"] }
serde_json = "1"
