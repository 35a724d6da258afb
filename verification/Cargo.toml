[package]
name = "arith"
version = "0.1.0"
edition = "2021"
publish = false

[dependencies]
clap = { version = "4", features = ["derive"] }
clap_complete = "4"
env_logger = "0.11"
log = "0.4"
