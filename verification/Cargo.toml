[package]
name = "relay6"
version = "0.1.0"
edition = "2021"
publish = false

[dependencies]
anyhow = "1"
base64 = "0.22"
embedded-svc = "*"
esp-idf-svc = "0.52"
log = "0.4"
noise-protocol = "*"
noise-rust-crypto = "*"
prost = "*"
serde = { version = "1", features = ["derive"] }
serde_json = "1"
smart-leds = "*"
thiserror = "*"
ws2812-esp32-rmt-driver = "*"
