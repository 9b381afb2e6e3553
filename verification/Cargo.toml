[package]
name = "packet_forwarding_service"
version = "0.1.0"
edition = "2021"
publish = false

[dependencies]
image = { version = "0.25", default-features = false }
crossbeam-channel = "0.5"
nfq = "0.2"
ort = { version = "=2.0.0-rc.10", default-features = false, features = ["ndarray", "load-dynamic", "std"] }
ndarray = "0.16"
time = { version = "0.3", features = ["formatting"] }
tracing = "0.1"
tracing-subscriber = { version = "0.3", features = ["env-filter", "time"] }
