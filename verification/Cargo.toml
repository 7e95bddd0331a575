[package]
name = "rhwp"
version = "0.1.0"
edition = "2021"
publish = false

[dependencies]
base64 = "=0.23.1"
blake3 = { version = "=1.8.7", features = ["pure"] }
cfb = "=0.16.0"
flate2 = "=1.1.10"
quick-xml = "=0.38.4"
