[package]
name = "broker"
version = "0.1.0"
edition = "2021"
publish = false

[dependencies]
uuid = { version = "1", features = ["v4", "serde"] }
chrono = { version = "0.4", features = ["serde"] }
serde = { version = "1", features = ["derive"] }
bincode = "1.3"
tokio = { version = "1", features = ["rt", "net", "macros", "sync", "time", "io-util", "io-std"] }
tokio-util = { version = "0.7", features = ["compat"] }
futures = "0.3"
capnp = "*"
capnp-rpc = "*"
clap = { version = "4", features = ["derive"] }
ctrlc = "3"
