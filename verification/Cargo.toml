[package]
name = "tincan"
version = "0.1.0"
edition = "2021"
publish = false

[dependencies]
uuid = { version = "1", features = ["v7"] }
chrono = "0.4"
console = "0.15"
dialoguer = "0.11"
