[package]
name = "psy"
version = "2.1.0"
edition = "2021"
publish = false

[dependencies]
async-stream = "=0.3.6"
chrono = "=0.4.45"
clap = { version = "=4.6.7", features = ["derive"] }
futures-core = "=0.3.34"
libc = "=0.2.191"
nix = { version = "=0.29.0", features = ["signal", "process", "fs", "user"] }
regex = "1"
serde = { version = "=1.0.229", features = ["derive"] }
serde_json = "=1.0.154"
tokio = { version = "=1.54.1", features = ["full"] }
toml = "=0.8.23"
uuid = { version = "=1.29.0", features = ["v4"] }
