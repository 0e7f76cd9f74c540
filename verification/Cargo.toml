[package]
name = "smart_home"
version = "0.1.0"
edition = "2021"
publish = false

[dependencies]
rand = "0.8"
tokio = { version = "1", features = ["rt-multi-thread", "net", "io-util", "macros", "sync"] }

[dev-dependencies]
serde_json = "1"
