[package]
name = "router"
version = "0.1.0"
edition = "2021"
publish = false

[dependencies]
actix-web = "4"
awc = "3"
clap = { version = "4", features = ["derive"] }
log = "0.4"
pretty_env_logger = "0.5"
serde_yaml = "0.9"
tokio = { version = "1", features = ["time"] }
url = "2"
