[package]
name = "dial9_tokio_telemetry"
version = "0.1.0"
edition = "2021"
publish = false

[dependencies]
dial9-trace-format = { version = "=0.5.4", features = ["serde-deserialize"] }
flate2 = "=1.1.10"
futures-util = { version = "0.3", default-features = false, features = ["std"] }
libc = "=0.2.191"
netlink-packet-core = "=0.9.0"
netlink-packet-sock-diag = "=0.5.0"
netlink-sys = "=0.9.0"
pin-project-lite = "0.2"
serde = { version = "1", features = ["derive"] }
smallvec = "=1.16.4"
tokio = { version = "=1.54.1", features = ["rt", "rt-multi-thread", "sync", "time"] }
tracing = "0.1"
