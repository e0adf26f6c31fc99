[package]
name = "attache"
version = "0.1.5"
edition = "2021"
publish = false

[dependencies]
env_logger = "0.11"
filetime = "0.2"
fuser = "*"
libc = "0.2"
log = "0.4"
serde = { version = "1", features = ["derive"] }
serde_json = "1"
sha2 = "0.10"
