[package]
name = "nitro_attest"
version = "0.1.0"
edition = "2021"
publish = false

[dependencies]
aws-nitro-enclaves-nsm-api = "0.4"
axum = "0.8"
base64 = "=0.22.1"
bytes = "1"
futures = "0.3"
hex = "=0.4.3"
http-body-util = "0.1"
hyper = { version = "1", features = ["client", "http1"] }
hyper-util = { version = "0.1", features = ["tokio"] }
k256 = { version = "=0.13.4", features = ["ecdsa"] }
nix = { version = "0.29", features = ["socket"] }
rand = "=0.8.8"
serde = { version = "1", features = ["derive"] }
serde_bytes = "0.11"
serde_json = "=1.0.154"
sha2 = "=0.11.1"
tokio = { version = "1", features = ["full"] }
tokio-tungstenite = "=0.30.0"
tokio-vsock = "0.7"
