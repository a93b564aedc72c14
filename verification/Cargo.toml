[package]
name = "rusty_shock"
version = "0.1.0"
edition = "2021"
publish = false

[dependencies]
rosc = "0.10"
serde = { version = "1", features = ["derive"] }
toml = "0.8"
tokio = { version = "1", features = ["full"] }
async-tungstenite = { version = "*", features = ["tokio-runtime"] }
futures-util = "0.3"
chrono = "0.4"
log = "0.4"
swing = "*"

[dev-dependencies]
serde_json = "1"
