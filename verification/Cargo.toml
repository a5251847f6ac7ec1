[package]
name = "net_lookup"
version = "0.1.0"
edition = "2021"
publish = false

[dependencies]
domain = { version = "0.7", features = ["resolv"] }
maxminddb = "0.16"
tokio = { version = "1", features = ["full"] }
futures = "0.3"
serde = "1"
serde_derive = "1"
serde_json = "1"
clap = "2"
dirs = "*"
