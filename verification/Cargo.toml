[package]
name = "charset_normalizer_rs"
version = "0.1.0"
edition = "2021"
publish = false

[dependencies]
encoding = "0.2"
unic = "0.9"
lru-cache = "0.1"
ordered-float = "3"
clap = { version = "4", features = ["derive"] }
dialoguer = "0.10"
env_logger = "0.10"
log = "0.4"
serde = { version = "1", features = ["derive"] }
serde_json = "1"
