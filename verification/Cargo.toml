[package]
name = "mup"
version = "0.1.0"
edition = "2021"
publish = false

[dependencies]
anyhow = "=1.0.104"
clap = { version = "=4.6.7", features = ["derive"] }
log = "=0.4.34"
pretty_env_logger = "=0.5.0"
serde = { version = "=1.0.229", features = ["derive"] }
serde_json = "=1.0.151"
sha1 = "=0.11.0"
sha2 = "=0.11.0"
ureq = { version = "=3.4.2", features = ["json"] }
