[package]
name = "qmux"
version = "0.1.0"
edition = "2021"
publish = false

[dependencies]
bytes = "1"
futures = "0.3"
tokio = { version = "1", features = ["rt", "sync", "time", "macros"] }
