[package]
name = "raytracing_rs"
version = "0.1.0"
edition = "2021"
publish = false

[dependencies]
rand = "=0.8.8"
rayon = "=1.12.0"
indicatif = { version = "=0.17.11", features = ["rayon"] }
serde = { version = "=1.0.229", features = ["derive"] }
serde_json = "=1.0.151"
image = "=0.24.9"
