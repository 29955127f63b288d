[package]
name = "anomaly_detection_system"
version = "0.1.0"
edition = "2021"
publish = false

[dependencies]
rand = "=0.8.8"
chrono = { version = "=0.4.45", features = ["serde"] }
serde = { version = "=1.0.229", features = ["derive"] }
serde_json = "=1.0.154"
colored = "=2.2.0"
csv = "=1.4.0"
ndarray = "=0.15.6"
