[package]
name = "extra_peers"
version = "0.1.0"
edition = "2021"
publish = false

[dependencies]
ipnetwork = "=0.21.1"
base64 = "=0.22.1"
gotatun = { version = "=0.10.2", features = ["device", "tun", "daita"] }
tokio = { version = "=1.54.1", features = ["fs", "sync", "time", "net", "macros", "rt"] }
futures = "=0.3.34"
log = "=0.4.35"
