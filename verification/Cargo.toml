[package]
name = "hyades"
version = "0.1.0"
edition = "2021"
publish = false

[dependencies]
crc32c = "*"
rand = "*"
tokio = { version = "*", features = ["net", "time", "rt", "macros"] }
log = "*"
env_logger = "*"
structopt = "*"
thiserror = "*"
