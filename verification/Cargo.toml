[package]
name = "wtr"
version = "0.1.0"
edition = "2021"
publish = false

[dependencies]
libc = "*"
tokio = { version = "*", features = ["rt", "time"] }
tokio-stream = "*"
