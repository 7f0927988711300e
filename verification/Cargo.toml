[package]
name = "media_ingest"
version = "0.1.0"
edition = "2021"
rust-version = "1.95"
publish = false

[dependencies]
anyhow = "=1.0.104"
config = { version = "=0.14.1", default-features = false, features = ["toml"] }
dptree = "=0.3.0"
env_logger = "=0.11.11"
log = "=0.4.34"
reqwest = { version = "=0.11.27", default-features = false }
secrecy = { version = "=0.8.0", features = ["serde"] }
serde = { version = "=1.0.229", features = ["derive"] }
takecell = "=0.1.1"
teloxide = "=0.13.0"
tokio = { version = "=1.54.1", features = ["rt-multi-thread", "macros", "fs", "io-util"] }
