[package]
name = "firmware_catalog"
version = "0.1.0"
edition = "2021"
publish = false

[dependencies]
semver = "1"
serde = { version = "1", features = ["derive"] }
serde_json = "1"
tokio = { version = "1", features = ["full"] }
warp = { version = "0.3", features = ["tls"] }
log = "0.4"
pretty_env_logger = "0.5"
