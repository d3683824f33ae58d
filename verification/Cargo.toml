[package]
name = "alba"
version = "0.1.0"
edition = "2021"
publish = false

[dependencies]
blake3 = "1"
glob = "0.3"
globset = "0.4"
ignore = "0.4"
serde = { version = "1", features = ["derive"] }
serde_json = "1"
owo-colors = "4"
clap = { version = "4", features = ["derive", "env"] }
tokio = { version = "1", features = ["rt-multi-thread", "macros", "sync", "time", "signal", "process", "io-util", "fs", "io-std"] }
tokio-util = "0.7"
async-trait = "0.1"
thiserror = "2"
notify-debouncer-full = "*"
