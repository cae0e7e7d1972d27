[package]
name = "rustscan"
version = "0.1.0"
edition = "2021"
publish = false

[dependencies]
rand = "0.9"
gcd = "2"
cidr-utils = "*"
rlimit = "0.10"
clap = { version = "4", features = ["derive"] }
serde = { version = "1", features = ["derive"] }
serde_derive = "1"
toml = "0.8"
dirs = "6"
colored = "3"
colorful = "0.3"
log = "0.4"
env_logger = "0.11"
anyhow = "1"
async-std = "1"
futures = "0.3"
hickory-resolver = { version = "0.24", features = ["dns-over-rustls"] }
