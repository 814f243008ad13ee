[package]
name = "nanodns"
version = "0.1.0"
edition = "2021"
publish = false

[dependencies]
trust-dns-proto = "*"
anyhow = "*"
async-channel = "*"
async-net = "*"
clap = { version = "*", features = ["derive"] }
ctrlc = "*"
log = "*"
pretty_env_logger = "*"
smol = "*"
