[package]
name = "csgo_loader"
version = "0.1.0"
edition = "2021"
publish = false

[dependencies]
base64 = "0.22"
serde = { version = "1", features = ["derive"] }
serde_json = "1"
tokio = { version = "1", features = ["time"] }
windows-registry = "*"
zip = { version = "*", default-features = false, features = ["deflate"] }
