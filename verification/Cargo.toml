[package]
name = "chip8"
version = "0.1.0"
edition = "2021"
publish = false

[dependencies]
rand = "*"
serde = { version = "*", features = ["derive"] }
serde_json = "*"
piston_window = "*"
