[package]
name = "cocoatly"
version = "0.1.0"
edition = "2021"
publish = false

[dependencies]
flate2 = "*"
blake3 = "*"
sha2 = "*"
ring = "*"
uuid = { version = "*", features = ["v4"] }
chrono = "*"
serde = { version = "*", features = ["derive"] }
serde_json = "*"
clap = { version = "*", features = ["derive"] }
anyhow = "*"
tokio = { version = "*", features = ["rt-multi-thread", "macros", "time"] }
futures = "*"
reqwest = { version = "*", default-features = false, features = ["stream"] }
walkdir = "*"
tracing = "*"
tracing-subscriber = "*"
