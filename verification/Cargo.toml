[package]
name = "gpu_guard"
version = "0.1.0"
edition = "2021"
publish = false

[dependencies]
hostname = "*"
anyhow = "1"
dirs = "*"
nu-ansi-term = "*"
reedline = "*"
reqwest = { version = "*", default-features = false, features = ["json", "rustls-tls"] }
serde = { version = "1", features = ["derive"] }
serde_json = "1"
tokio = { version = "1", features = ["macros", "rt-multi-thread", "process", "io-util", "sync", "time"] }
toml = "*"
tracing = "0.1"
tracing-subscriber = "0.3"
