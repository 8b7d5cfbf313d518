[package]
name = "gaze_hermes_sidecar"
version = "0.1.0"
edition = "2021"
publish = false

[dependencies]
chacha20poly1305 = "=0.10.1"
rand = "=0.8.8"
sha2 = "=0.10.9"
hkdf = "0.12"
hex = "=0.4.3"
subtle = "=2.6.1"
zeroize = "=1.9.1"
toml_edit = "=0.25.17"
thiserror = "=2.0.21"
serde = { version = "=1.0.229", features = ["derive"] }
serde_json = "=1.0.154"
clap = { version = "=4.6.7", features = ["derive", "env"] }
tokio = { version = "=1.54.1", features = ["full"] }
axum = { version = "=0.8.9", features = ["ws"] }
tracing = "=0.1.44"
tracing-subscriber = { version = "=0.3.23", features = ["env-filter"] }
gaze-pii = { version = "=0.17.0", default-features = false }
