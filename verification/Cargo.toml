[package]
name = "helix-lsp"
version = "0.1.0"
edition = "2021"
publish = false

[dependencies]
anyhow = "=1.0.104"
futures-executor = "=0.3.34"
futures-util = "=0.3.34"
log = "=0.4.34"
lsp-types = "=0.94.1"
ropey = { version = "=1.6.1", default-features = false, features = ["simd"] }
serde = { version = "=1.0.229", features = ["derive"] }
serde_json = "=1.0.154"
thiserror = "=1.0.69"
tokio = { version = "=1.54.1", features = ["rt", "rt-multi-thread", "io-util", "io-std", "time", "process", "macros", "sync"] }
tokio-stream = "=0.1.19"
unicode-segmentation = "1"
