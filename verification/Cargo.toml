[package]
name = "hp-m177"
version = "0.3.0"
edition = "2021"
publish = false

[dependencies]
jpeg-encoder = "0.6"
jpeg-decoder = "0.3"
uuid = { version = "1", features = ["v4"] }
serde = { version = "1", features = ["derive"] }
serde_json = "1"
clap = { version = "4", features = ["derive"] }
thiserror = "1"
tiny_http = "0.12"
ureq = { version = "2", default-features = false }
mdns-sd = "*"
