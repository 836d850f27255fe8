[package]
name = "pantheon"
version = "0.1.0"
edition = "2021"
publish = false

[dependencies]
uuid = { version = "*", features = ["v4"] }
rand = "0.8"
serde = { version = "*", features = ["derive"] }
serde_json = "*"
chrono = "*"
