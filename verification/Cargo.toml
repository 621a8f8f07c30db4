[package]
name = "avail_light"
version = "0.1.0"
edition = "2021"
publish = false

[dependencies]
num = "0.4"
anyhow = "1"
futures = "0.3"
futures-util = "0.3"
libp2p = { version = "*", default-features = false, features = ["kad"] }
serde = { version = "1", features = ["derive"] }
serde_json = "1"
tokio = { version = "1", features = ["full"] }
tokio-stream = "0.1"
tokio-tungstenite = "*"
tracing = "0.1"
url = "2"
confy = "*"
