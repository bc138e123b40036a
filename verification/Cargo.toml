[package]
name = "fs_blockchain"
version = "0.1.0"
edition = "2021"
publish = false

[dependencies]
chrono = "*"
sha2 = "*"
serde = { version = "*", features = ["derive"] }
toml = "*"
log = "*"
env_logger = "*"
tokio = { version = "*", features = ["rt-multi-thread", "macros", "net", "io-util", "time"] }
igd = { version = "*", features = ["aio"] }
local-ip-address = "*"
reqwest = { version = "*", default-features = false }
