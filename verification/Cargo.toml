[package]
name = "front_door"
version = "0.1.0"
edition = "2021"
publish = false

[dependencies]
anyhow = "*"
rustls-pemfile = "*"
serde = { version = "*", features = ["derive"] }
serde_json = "*"
