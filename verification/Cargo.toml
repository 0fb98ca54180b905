[package]
name = "msghub"
version = "0.1.0"
edition = "2021"
publish = false

[dependencies]
rand = "=0.10.3"
tokio = { version = "=1.53.2", features = ["full"] }
tokio-tungstenite = "=0.30.0"
futures = "=0.3.34"
serde = { version = "=1.0.229", features = ["derive"] }
serde_json = "=1.0.151"
chrono = "=0.4.45"
warp = { version = "=0.4.3", features = ["server"] }
