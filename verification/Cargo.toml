[package]
name = "loadbalancer"
version = "0.1.0"
edition = "2021"
publish = false

[dependencies]
clap = "*"
env_logger = "*"
log = "*"
mio = { version = "*", features = ["os-poll", "net"] }
serde = { version = "*", features = ["derive"] }
toml = "*"
