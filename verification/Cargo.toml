[package]
name = "chat_protocol"
version = "0.1.0"
edition = "2021"
publish = false

[dependencies]
anyhow = "1"
quinn = "0.10"
rcgen = "0.11"
rustls = "0.21"
tokio = { version = "1", features = ["fs", "io-std", "io-util", "macros", "rt-multi-thread", "signal", "sync", "time"] }
uuid = { version = "1", features = ["v4"] }
