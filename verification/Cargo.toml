[package]
name = "rtdb"
version = "0.1.0"
edition = "2021"
publish = false

[dependencies]
rand = "=0.8.8"
dashmap = "=5.5.3"
regex = "=1.13.1"
serde = { version = "=1.0.229", features = ["derive"] }
serde_json = "=1.0.154"
uuid = { version = "=1.29.0", features = ["v4"] }
clap = { version = "=4.6.7", features = ["derive"] }
base64 = "0.22"
num_cpus = "1"
reqwest = { version = "0.12", default-features = false, features = ["json"] }
tokio = { version = "1", features = ["full"] }
chrono = "0.4"
indicatif = "0.17"
arrow = { version = "53", default-features = false }
parquet = { version = "53", default-features = false, features = ["arrow", "async"] }
