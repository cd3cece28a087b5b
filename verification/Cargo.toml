[package]
name = "otto"
version = "0.1.0"
edition = "2021"
publish = false

[dependencies]
colored = "3"
sha2 = "0.10"
hex = "0.4"
console = "*"
unicode-segmentation = "1"
daggy = "*"
glob = "0.3"
indicatif = "0.18"
serde = { version = "1", features = ["derive"] }
serde_json = "1"
serde_yaml = "0.9"
tokio = { version = "1", features = ["full"] }
eyre = "0.6"
log = "0.4"
env_logger = "*"
dirs = "*"
rusqlite = "*"
tempfile = "3"
