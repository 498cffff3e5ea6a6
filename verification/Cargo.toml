[package]
name = "qr_multi_scan"
version = "0.1.0"
edition = "2021"
publish = false

[dependencies]
anyhow = "*"
arboard = "*"
dirs = "*"
image = "*"
qrcode = "*"
rqrr = "*"
serde = { version = "*", features = ["derive"] }
serde_json = "*"
walkdir = "*"
zeroize = "*"
