[package]
name = "smtr"
version = "0.1.0"
edition = "2021"
publish = false

[dependencies]
url = "2"
anyhow = "1"
clap = "2"
libc = "0.2"
log = "0.4"
pretty_env_logger = "0.4"
thiserror = "1"
toml = "0.5"
