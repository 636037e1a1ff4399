[package]
name = "rustpeer"
version = "0.1.0"
edition = "2021"
publish = false

[dependencies]
tokio = { version = "1", features = ["rt-multi-thread", "time"] }
futures = "0.3"
futures-util = "0.3"
lazy_static = "1"
libc = "0.2"
walkdir = "2"
bindgen = "*"
