[package]
name = "namecheap_ddns"
version = "0.1.0"
edition = "2021"
publish = false

[dependencies]
url = "*"
log = "*"
env_logger = "*"
reqwest = { version = "*", default-features = false }
tokio = { version = "*", features = ["macros", "rt-multi-thread", "time"] }
