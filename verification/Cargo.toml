[package]
name = "ostool_boot"
version = "0.1.0"
edition = "2021"
publish = false

[dependencies]
mime_guess = "2"
tokio = { version = "1", features = ["fs", "net", "io-util", "rt", "rt-multi-thread", "macros"] }
tokio-rustls = { version = "0.26", default-features = false, features = ["ring", "tls12", "logging"] }
anyhow = "1"
log = "0.4"
