[package]
name = "loglook"
version = "0.3.0"
edition = "2021"
publish = false

[dependencies]
anyhow = "1"
bson = "2"
clap = { version = "4", features = ["derive"] }
config-file = "*"
console = "0.15"
ctrlc = "3"
futures = "0.3"
hickory-resolver = "0.24"
indicatif = "0.17"
mongodb = "2"
regex = "1"
reqwest = { version = "0.11", default-features = false }
serde = { version = "1", features = ["derive"] }
serde_json = "1"
shellexpand = "3"
tokio = { version = "1", features = ["rt-multi-thread", "macros", "sync", "time"] }
