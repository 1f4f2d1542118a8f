[package]
name = "tthsd"
version = "0.1.0"
edition = "2021"
publish = false

[dependencies]
num_cpus = "*"
uuid = { version = "*", features = ["v4"] }
serde = { version = "*", features = ["derive"] }
serde_json = "*"
tokio = { version = "*", features = ["rt", "rt-multi-thread", "net", "fs", "io-util", "sync", "time", "macros"] }
tokio-util = "*"
futures = "*"
reqwest = { version = "*", default-features = false, features = ["stream"] }
async-trait = "*"
libloading = "*"
