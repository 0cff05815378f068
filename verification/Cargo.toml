[package]
name = "rust_fedora"
version = "0.1.0"
edition = "2021"
publish = false

[dependencies]
anyhow = "=1.0.104"
http-body-util = "=0.1.5"
hyper = { version = "=1.12.0", features = ["http1", "server"] }
hyper-util = { version = "0.1", features = ["tokio"] }
tokio = { version = "=1.53.2", features = ["net", "rt-multi-thread", "macros", "io-util"] }
