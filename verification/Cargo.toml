[package]
name = "aiosaber_client"
version = "0.1.0"
edition = "2021"
publish = false

[dependencies]
serde = { version = "1", features = ["derive"] }
serde_json = "1"
sha1 = "0.6"
uuid = { version = "0.8", features = ["v4", "serde"] }
chrono = { version = "0.4", features = ["serde"] }
thiserror = "1"
log = "0.4"
env_logger = "0.9"
tokio = { version = "1", features = ["full"] }
warp = "0.3"
reqwest = { version = "0.11", default-features = false }
futures-util = "0.3"
notify = "4"
yaml-rust = "0.4"
zip = { version = "0.5", default-features = false, features = ["deflate"] }
curl = { version = "0.4", default-features = false }
