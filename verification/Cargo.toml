[package]
name = "network_connectivity"
version = "0.1.0"
edition = "2021"
publish = false

[dependencies]
rtnetlink = "0.11"
tokio = { version = "1", features = ["sync", "macros", "rt"] }
futures = "0.3"
log = "0.4"
cfg-if = "1"
