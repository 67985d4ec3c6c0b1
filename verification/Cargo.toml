[package]
name = "visit_roster"
version = "0.1.0"
edition = "2021"
publish = false

[dependencies]
anyhow = "*"
futures-util = "*"
http-body-util = "*"
hyper = { version = "*", features = ["server", "http1"] }
hyper-tungstenite = "*"
hyper-util = { version = "*", features = ["tokio"] }
serde = { version = "*", features = ["derive"] }
serde_qs = "*"
sqlite = "*"
tokio = { version = "*", features = ["sync", "rt-multi-thread", "macros", "net", "fs", "io-util", "time"] }
tokio-util = { version = "*", features = ["io"] }
tungstenite = "*"
