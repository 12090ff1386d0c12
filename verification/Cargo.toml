[package]
name = "glide_core"
version = "0.1.0"
edition = "2021"
publish = false

[dependencies]
redis = { version = "*", features = ["tokio-comp"] }
tokio = { version = "*", features = ["rt-multi-thread", "net", "io-util", "sync", "time", "macros"] }
