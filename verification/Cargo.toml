[package]
name = "unix_tools"
version = "0.1.0"
edition = "2021"
publish = false

[dependencies]
chrono = "0.4"
users = "0.11"
async-std = { version = "1", features = ["attributes"] }
futures = "0.3"
pin-project = "1"
structopt = "0.3"
tokio = { version = "1", features = ["full"] }
reqwest = { version = "0.12", default-features = false }
