[package]
name = "image_viewer"
version = "0.1.0"
edition = "2021"
publish = false

[dependencies]
base64 = "=0.21.7"
env_logger = "=0.10.2"
hex = "=0.4.3"
image = { version = "=0.24.9", features = ["webp-encoder"] }
log = "0.4"
serde = { version = "1", features = ["derive"] }
serde_json = "1"
sha2 = "=0.10.9"
