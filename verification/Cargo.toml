[package]
name = "flow_web"
version = "0.1.0"
edition = "2021"
publish = false

[dependencies]
chrono = "*"
markdown = "*"
tokio = { version = "*", features = ["rt-multi-thread", "macros", "fs", "io-util"] }
