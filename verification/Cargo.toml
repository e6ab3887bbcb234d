[package]
name = "udproxy"
version = "0.1.0"
edition = "2021"
publish = false

[dependencies]
ring = "*"
tokio = { version = "*", features = ["full"] }
socket2 = { version = "*", features = ["all"] }
nix = "*"
libc = "*"
lru_time_cache = "*"
parking_lot = "*"
clap = { version = "*", features = ["derive"] }
serde = { version = "*", features = ["derive"] }
toml = "*"
tracing = "*"
tracing-subscriber = "*"
parse_duration = "*"
rand = "*"
futures = "*"
tokio-stream = "*"
bytesize = "*"
