[package]
name = "dev_env_helper"
version = "0.1.0"
edition = "2021"
publish = false

[dependencies]
chrono = "*"
dirs = "*"
futures-util = "*"
rayon = "*"
regex = "*"
reqwest = { version = "*", default-features = false, features = ["json", "stream"] }
scraper = "*"
serde = { version = "*", features = ["derive"] }
serde_json = "*"
