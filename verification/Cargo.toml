[package]
name = "wireskip"
version = "0.1.0"
edition = "2021"
publish = false

[dependencies]
clap = { version = "4", features = ["derive"] }
env_logger = "0.11"
http = "1"
http-body-util = "0.1"
hyper = { version = "1", features = ["client", "server", "http2"] }
hyper-util = { version = "0.1", features = ["tokio"] }
log = "0.4"
semver = "1"
tokio = { version = "1", features = ["full"] }
tokio-util = "0.7"
