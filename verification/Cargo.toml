[package]
name = "aetherpose"
version = "0.1.0"
edition = "2021"
publish = false

[dependencies]
serde = { version = "1", features = ["derive"] }
serde_json = "1"
anyhow = "1"
axum = { version = "0.7", features = ["ws"] }
btleplug = "0.11"
chrono = "0.4"
crossbeam-channel = "0.5"
env_logger = "0.11"
flate2 = "1"
futures = "0.3"
log = "0.4"
nalgebra = "0.33"
rosc = "0.10"
serialport = "4"
tokio = { version = "1", features = ["full"] }
uuid = "1"
