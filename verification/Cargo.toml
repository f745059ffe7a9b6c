[package]
name = "tiny"
version = "0.1.0"
edition = "2021"
publish = false

[dependencies]
rand = "0.8"
ansi_term = "0.12"
docopt = "1.1"
env_logger = "0.10"
log = "0.4"
serde = { version = "1", features = ["derive"] }
