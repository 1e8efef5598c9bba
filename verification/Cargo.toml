[package]
name = "fileshare"
version = "0.1.0"
edition = "2021"
publish = false

[dependencies]
uuid = { version = "=1.27.0", features = ["v4"] }
chrono = "=0.4.45"
hostname = "=0.4.2"
cryptohelpers = { version = "=2.0.0", default-features = false, features = ["checksum"] }
tokio = { version = "=1.53.2", features = ["full"] }
serde = { version = "=1.0.229", features = ["derive"] }
serde_json = "=1.0.151"
if-addrs = "=0.15.0"
mdns-sd = "=0.21.5"
platform-dirs = "=0.3.0"
opener = "=0.9.0"
