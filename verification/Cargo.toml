[package]
name = "rc-car"
version = "0.1.0"
edition = "2021"
publish = false

[dependencies]
anyhow = "=1.0.104"
log = "=0.4.35"
embedded-svc = "=0.29.0"
esp-idf-hal = "=0.46.2"
esp-idf-svc = "=0.52.1"
