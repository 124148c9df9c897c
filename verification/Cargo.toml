[package]
name = "dwebble_rws"
version = "0.1.0"
edition = "2021"
publish = false

[dependencies]
tokio = { version = "*", features = ["sync", "rt-multi-thread", "net", "macros", "time", "io-util"] }
tokio-tungstenite = "*"
tokio-rustls = { version = "*", default-features = false, features = ["ring", "tls12", "logging"] }
rustls = { version = "*", default-features = false, features = ["ring", "std", "tls12", "logging"] }
rustls-pemfile = "*"
futures-util = "*"
parking_lot = "*"
tracing = "*"
tracing-subscriber = { version = "*", features = ["env-filter"] }
