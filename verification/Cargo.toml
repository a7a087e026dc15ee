[package]
name = "document_diff"
version = "0.1.0"
edition = "2021"
publish = false

[dependencies]
image = { version = "=0.25.10", default-features = false }
pdfium-render = "=0.8.37"
base64 = "=0.22.1"
rsa = "=0.9.10"
rand = "=0.8.8"
serde = { version = "=1.0.229", features = ["derive"] }
chrono = { version = "=0.4.45", default-features = false }
