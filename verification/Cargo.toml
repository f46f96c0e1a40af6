[package]
name = "chainview"
version = "0.1.0"
edition = "2021"
publish = false

[dependencies]
tokio = { version = "1", features = ["sync", "rt", "time", "signal", "macros"] }
serde = { version = "1", features = ["derive"] }
serde_json = "1"
reqwest = { version = "0.12", default-features = false }
url = "2"
regex = "1"
hyper = { version = "0.14", features = ["server", "http1", "tcp"] }
futures = "0.3"
tokio-tungstenite = "*"
log = "0.4"
env_logger = "*"
clap = "*"
