[package]
name = "bmail"
version = "0.1.0"
edition = "2021"
publish = false

[dependencies]
age = "=0.9.3"
base64 = "=0.21.7"
bisky = "=0.3.0"
chrono = { version = "=0.4.45", features = ["serde"] }
ciborium = "=0.2.2"
config = { version = "=0.13.4", default-features = false, features = ["toml"] }
crossterm = "=0.26.1"
futures = "=0.3.34"
miette = "=5.10.0"
ratatui = "=0.20.1"
reqwest = { version = "=0.11.27", features = ["json"] }
serde = { version = "=1.0.229", features = ["derive"] }
serde_cbor = "=0.11.2"
serde_json = "=1.0.154"
thiserror = "=1.0.69"
tokio = { version = "=1.54.1", features = ["full"] }
tokio-tungstenite = { version = "=0.30.0", features = ["native-tls"] }
unicode-width = "=0.1.14"
url = "=2.5.8"
uuid = { version = "=1.29.0", features = ["v4", "serde"] }
