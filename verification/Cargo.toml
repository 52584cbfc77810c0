[package]
name = "carry_talk"
version = "0.1.0"
edition = "2021"
publish = false

[dependencies]
aes-gcm = "0.10"
base64 = "0.22"
serde = { version = "1", features = ["derive"] }
serde_json = "1"
toml = "*"
chrono = { version = "0.4", features = ["serde"] }
uuid = { version = "1", features = ["v4"] }
rand = "*"
crossbeam-channel = "0.5"
tokio = { version = "1", features = ["sync", "time", "rt", "macros"] }
tokio-util = "0.7"
tracing = "0.1"
futures-util = "0.3"
tokio-tungstenite = "*"
rubato = "*"
cpal = "*"
libpulse-binding = "*"
libpulse-simple-binding = "*"
thiserror = "2"
