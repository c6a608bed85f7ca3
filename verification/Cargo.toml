[package]
name = "lyrictag"
version = "0.1.0"
edition = "2021"
publish = false

[dependencies]
fast2s = "=0.3.1"
html-escape = "=0.2.15"
blake3 = "=1.8.7"
encoding_rs = "=0.8.44"
base64 = "=0.22.1"
image = { version = "=0.25.10", default-features = false, features = ["png", "jpeg", "gif", "bmp", "tiff", "webp"] }
serde = { version = "=1.0.229", features = ["derive"] }
serde_json = "=1.0.154"
strsim = "=0.11.1"
tokio = { version = "=1.54.1", features = ["rt-multi-thread", "macros", "time", "fs"] }
reqwest = { version = "=0.12.28", default-features = false, features = ["json", "rustls-tls"] }
toml = "=0.8.23"
walkdir = "=2.5.0"
regex = "1"
aes = "0.8"
cbc = "0.1"
num-bigint = "0.4"
