[package]
name = "webfunctions"
version = "0.1.0"
edition = "2021"
publish = false

[dependencies]
fastembed = { version = "=5.2.0", default-features = false, features = ["hf-hub-rustls-tls", "ort-load-dynamic"] }
once_cell = "1"
oxrdf = "=0.3.5"
oxttl = "=0.2.5"
serde = { version = "1", features = ["derive"] }
serde_json = "=1.0.154"
tiny_http = "0.12"
