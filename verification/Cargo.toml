[package]
name = "mistralrs_core"
version = "0.1.0"
edition = "2021"
publish = false

[dependencies]
anyhow = "=1.0.104"
axum = "=0.7.9"
candle-core = "=0.9.2"
candle-nn = "=0.9.2"
chrono = "=0.4.45"
either = { version = "=1.19.0", features = ["serde"] }
futures = "=0.3.34"
hf-hub = "=0.3.2"
minijinja = "=2.24.0"
serde = { version = "=1.0.229", features = ["derive"] }
serde_json = "=1.0.154"
tokenizers = "=0.19.1"
utoipa = "=4.2.3"
