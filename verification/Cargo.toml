[package]
name = "asana_gtasks"
version = "0.1.0"
edition = "2021"
publish = false

[dependencies]
anyhow = "1"
dotenv = "0.15"
env_logger = "0.11"
google-tasks1 = "*"
jiff = { version = "0.2", features = ["serde"] }
log = "0.4"
reqwest = { version = "0.12", features = ["json"] }
rustls = { version = "0.23", features = ["ring"] }
serde = { version = "1", features = ["derive"] }
tokio = { version = "1", features = ["full"] }
