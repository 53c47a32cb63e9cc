[package]
name = "olma"
version = "0.1.0"
edition = "2021"
publish = false

[dependencies]
clap = { version = "4", features = ["derive"] }
flate2 = "1"
fs2 = "0.4"
futures-util = "0.3"
hex = "0.4"
memchr = "2"
num_cpus = "1"
reqwest = { version = "0.12", default-features = false, features = ["json", "stream"] }
rusqlite = "0.32"
serde = { version = "1", features = ["derive"] }
serde_json = "1"
sha2 = "0.10"
tar = "0.4"
thiserror = "2"
tokio = { version = "1", features = ["rt-multi-thread", "macros", "fs", "process", "time", "sync", "io-util"] }
walkdir = "2"
