[package]
name = "channel_sync"
version = "0.1.0"
edition = "2021"
publish = false

[dependencies]
crossbeam = "0.8"
env_logger = "*"
futures = "0.3"
log = "0.4"
num_cpus = "1"
serde = { version = "1", features = ["derive"] }
serde_json = "1"
tokio = { version = "1", features = ["macros", "rt-multi-thread"] }
youtube_dl = "*"
