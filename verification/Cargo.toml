[package]
name = "estimated_wait"
version = "0.1.0"
edition = "2021"
publish = false

[dependencies]
axum = "=0.8.9"
metrics = "=0.24.6"
parking_lot = "=0.12.5"
serde = { version = "=1.0.229", features = ["derive"] }
