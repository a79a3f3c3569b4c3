[package]
name = "ant_node"
version = "0.11.0"
edition = "2021"
publish = false

[dependencies]
blake3 = "1"
bao = "*"
hex = "0.4"
rand = "0.8"
saorsa-pqc = "*"
saorsa-core = "*"
parking_lot = "0.12"
postcard = { version = "1", features = ["use-std"] }
tokio = { version = "1", features = ["full"] }
tokio-util = "0.7"
futures = "0.3"
serde = { version = "1", features = ["derive"] }
serde_json = "1"
clap = { version = "4", features = ["derive"] }
color-eyre = "0.6"
thiserror = "*"
tracing-appender = "*"
tracing-subscriber = { version = "*", features = ["env-filter", "json"] }
