[package]
name = "fraud_knn"
version = "0.1.0"
edition = "2021"
publish = false

[dependencies]
axum = "0.8"
bytes = "1"
chrono = { version = "0.4", features = ["serde"] }
flate2 = "1"
memmap2 = "0.9"
mimalloc = "0.1"
rayon = "1"
serde = { version = "1", features = ["derive"] }
serde_json = "1"
tokio = { version = "1", features = ["net", "rt", "time"] }
