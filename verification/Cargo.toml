[package]
name = "polydural"
version = "0.1.0"
edition = "2021"
publish = false

[dependencies]
noise = "0.8"
rand = "0.8"
serde = { version = "1", features = ["derive"] }
serde_json = "1"
rust-embed = "8"
image = { version = "0.24", default-features = false, features = ["png"] }
hound = "3.5"
lewton = "0.10"
cgmath = "0.18"
bytemuck = { version = "1", features = ["derive"] }
