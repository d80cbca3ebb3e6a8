[package]
name = "wang"
version = "0.1.0"
edition = "2021"
publish = false

[dependencies]
glam = "*"
glow = "0.11"
glutin = "0.29"
rand = "0.8"
serde = { version = "1", features = ["derive"] }
serde_json = "1"
