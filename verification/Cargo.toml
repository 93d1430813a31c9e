[package]
name = "openairplay1"
version = "0.3.0"
edition = "2021"
publish = false

[dependencies]
aes = "=0.8.4"
alac = "=0.5.0"
alsa = "=0.12.1"
base64 = "=0.22.1"
cbc = { version = "=0.1.2", features = ["alloc", "block-padding"] }
crossterm = { version = "=0.28.1", features = ["event-stream"] }
env_logger = "=0.11.11"
futures-util = "=0.3.34"
getrandom = "=0.2.17"
log = "=0.4.35"
md-5 = "=0.10.6"
ratatui = "=0.29.0"
rsa = "=0.9.10"
serde = { version = "=1.0.229", features = ["derive"] }
serde_json = "=1.0.154"
sha1 = "=0.10.7"
tokio = { version = "=1.54.1", features = ["full"] }
tokio-tungstenite = "0.24"
zbus = "=5.19.0"

[dev-dependencies]
rand = "=0.8.8"
