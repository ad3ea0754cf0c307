[package]
name = "tower-allowed-hosts"
version = "0.1.0"
edition = "2021"
publish = false

[dependencies]
regex = "1"
wildmatch = "2"
http = "1"
tower-layer = "0.3"
tower-service = "0.3"
pin-project = "1"
tracing = "0.1"
axum = { version = "0.8", default-features = false }
