[package]
name = "faux_show_backend"
version = "0.1.0"
edition = "2021"
publish = false

[dependencies]
circular-buffer = "=1.2.1"
form_urlencoded = "=1.2.2"
serde = { version = "=1.0.229", features = ["derive"] }
serde_json = "=1.0.154"
tokio = { version = "=1.54.1", features = ["full"] }
hyper = { version = "=1.12.0", features = ["full"] }
hyper-util = { version = "=0.1.21", features = ["full"] }
hyper-tungstenite = "=0.30.0"
tokio-tungstenite = "=0.30.0"
tungstenite = "=0.30.0"
futures-util = "=0.3.34"
cpal = "=0.18.2"
