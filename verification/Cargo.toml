[package]
name = "swarms_rs"
version = "0.1.0"
edition = "2021"
publish = false

[dependencies]
petgraph = "0.6"
rand = "0.8"
uuid = { version = "1", features = ["v4"] }
twox-hash = "2"
zstd = "0.13"
serde = { version = "1", features = ["derive"] }
serde_json = "1"
serde_yaml = "0.9"
thiserror = "1"
tokio = { version = "1", features = ["rt-multi-thread", "macros", "sync", "time", "fs", "io-util"] }
futures = "0.3"
dashmap = "6"
tracing = "0.1"
chrono = "0.4"
log = "0.4"
env_logger = "0.11"
async-trait = "0.1"
anyhow = "1"
schemars = "0.8"
erased-serde = "0.4"
reqwest = { version = "0.12", default-features = false, features = ["json"] }
