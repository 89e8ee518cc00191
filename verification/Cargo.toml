[package]
name = "vivotk"
version = "0.1.0"
edition = "2021"
publish = false

[dependencies]
serde = { version = "=1.0.229", features = ["derive"] }
quick-xml = { version = "=0.42.0", features = ["serialize"] }
anyhow = "=1.0.104"
tokio = { version = "=1.54.1", features = ["rt-multi-thread", "macros", "fs", "io-util", "sync", "time"] }
reqwest = { version = "=0.13.5", default-features = false, features = ["gzip"] }
futures = "=0.3.34"
log = "=0.4.35"
nalgebra = "=0.35.0"
lab = "=0.11.0"
clap = { version = "=4.6.7", features = ["derive"] }
tempfile = "=3.27.0"
env_logger = { version = "=0.11.11", default-features = false }
ply-rs = "0.1"
