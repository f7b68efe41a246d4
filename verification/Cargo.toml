[package]
name = "epo_processor"
version = "0.1.0"
edition = "2021"
publish = false

[dependencies]
anyhow = "1"
clap = { version = "4", features = ["derive"] }
csv = "1"
dashmap = "6"
env_logger = "0.11"
flate2 = "1"
futures = "0.3"
indicatif = "0.17"
libxml = "0.3"
log = "0.4"
rayon = "1"
reqwest = { version = "0.12", features = ["json", "stream"] }
serde = { version = "1", features = ["derive"] }
serde_yaml = "0.9"
sha1 = "0.10"
tar = "0.4"
tokio = { version = "1", features = ["full"] }
walkdir = "2"
zip = { version = "2", default-features = false, features = ["deflate"] }
