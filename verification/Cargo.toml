[package]
name = "faithea"
version = "0.1.0"
edition = "2021"
publish = false

[dependencies]
bytes = "=1.12.1"
http = "=1.5.0"
base64 = "=0.22.1"
sha1 = "=0.10.7"
serde = { version = "=1.0.229", features = ["derive"] }
serde_json = "=1.0.154"
tokio = { version = "=1.54.1", features = ["rt-multi-thread", "macros", "net", "io-util", "sync", "time", "fs"] }
log = "=0.4.35"
thiserror = "=2.0.21"
urlencoding = "=2.1.3"
