[package]
name = "stepsynth"
version = "0.1.0"
edition = "2021"
publish = false

[dependencies]
cpal = "*"
dialoguer = "*"
serde = { version = "*", features = ["derive"] }
serde_json = "*"
