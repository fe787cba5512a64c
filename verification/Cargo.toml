[package]
name = "halldisplay"
version = "0.1.0"
edition = "2021"
publish = false

[dependencies]
anyhow = "1"
base64 = "0.21"
chrono = "0.4"
chrono-tz = "0.8"
embedded-graphics = "0.8"
embedded-svc = "*"
epd-waveshare = "*"
esp-idf-hal = "*"
esp-idf-svc = "*"
esp-idf-sys = "*"
extrasafe = "*"
image = { version = "0.24", default-features = false, features = ["png"] }
log = "0.4"
reqwest = { version = "0.11", default-features = false, features = ["blocking", "rustls-tls"] }
rusttype = "0.9"
serde_json = "1"
