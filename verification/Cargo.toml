[package]
name = "c3pg"
version = "0.3.1"
edition = "2021"
publish = false

[dependencies]
anyhow = "1"
clap = { version = "4", features = ["derive"] }
clap-verbosity-flag = "2"
env_logger = "0.11"
heck = "0.5"
log = "0.4"
semver = "1"
serde = { version = "1", features = ["derive"] }
toml = "0.8"
walkdir = "2"

[dev-dependencies]
regex = "1"
