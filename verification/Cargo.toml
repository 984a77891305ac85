[package]
name = "filter_pipeline"
version = "0.1.0"
edition = "2021"
publish = false

[dependencies]
anyhow = "1"
async-compression = { version = "0.4", features = ["tokio", "gzip"] }
async-trait = "0.1"
clap = { version = "4", features = ["derive"] }
colored = "2"
env_logger = "0.10"
futures = "0.3"
log = "0.4"
regex = "1"
reqwest = { version = "0.11", default-features = false }
serde = { version = "1", features = ["derive"] }
serde_json = "1"
tokio = { version = "1", features = ["full"] }
tokio-tar = "0.3"
