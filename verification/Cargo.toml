[package]
name = "lisa"
version = "0.1.0"
edition = "2021"
publish = false

[dependencies]
rand = "0.8"
lru-cache = "0.1"
fnv = "1"
chrono = "*"
clap = "2"
serde = "1"
serde_derive = "1"
serde_json = "1"
env_logger = "*"
jpeg-decoder = "*"
image = "*"
darwin-rs = "*"
