[package]
name = "media_downloader"
version = "0.1.0"
edition = "2021"
publish = false

[dependencies]
aes = "=0.9.4"
anyhow = "1"
axum = "0.8"
cbc = "=0.2.1"
chrono = "0.4"
dom_query = "=0.29.0"
env_logger = "0.11"
futures-util = "0.3"
grammers-client = { version = "=0.11.0", features = ["parse_invite_link"] }
grammers-mtsender = "=0.11.0"
grammers-session = "=0.11.0"
headless_chrome = { version = "=1.0.22", default-features = false }
log = "0.4"
regex = "=1.13.1"
rustc-hash = "=2.1.3"
serde = { version = "1", features = ["derive"] }
serde_json = "1"
serde_yaml = "0.9"
tempfile = "3"
tokio = { version = "1", features = ["full"] }
tokio-stream = { version = "0.1", features = ["sync"] }
tokio-util = { version = "0.7", features = ["rt"] }
url = "=2.5.8"
