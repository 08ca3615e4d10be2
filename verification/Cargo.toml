[package]
name = "screencast"
version = "0.1.0"
edition = "2021"
publish = false

[dependencies]
tokio = { version = "*", features = ["sync", "net", "rt-multi-thread", "io-util", "time"] }
scrap = "*"
