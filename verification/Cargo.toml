[package]
name = "netlink_ports"
version = "0.1.0"
edition = "2021"
publish = false

[dependencies]
anyhow = "1"
axum = "*"
libc = "0.2"
netlink-packet-core = "*"
netlink-packet-sock-diag = "*"
netlink-sys = "*"
serde = { version = "1", features = ["derive"] }
tokio = { version = "1", features = ["macros", "rt-multi-thread", "net", "time"] }
tokio-stream = { version = "*", features = ["time"] }
tracing = "*"
tracing-subscriber = "*"
