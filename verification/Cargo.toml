[package]
name = "minecraft_server"
version = "0.1.0"
edition = "2021"
publish = false

[dependencies]
bytes = "1"
uuid = "1"
serde = { version = "1", features = ["derive"] }
serde_json = "1"
tokio = { version = "1", features = ["rt-multi-thread", "macros", "net", "io-util", "sync"] }
