[package]
name = "wisp"
version = "0.1.0"
edition = "2021"
publish = false

[dependencies]
serde = { version = "=1.0.229", features = ["derive"] }
serde_json = "=1.0.154"
url = "=2.5.8"
clap = { version = "=4.6.7", features = ["derive"] }
anyhow = "=1.0.104"
async-trait = "=0.1.92"
thiserror = "=1.0.69"
tracing = "=0.1.44"
tracing-subscriber = { version = "=0.3.23", features = ["env-filter"] }
tokio = { version = "=1.54.1", features = ["rt-multi-thread", "macros", "process", "fs", "time", "sync", "io-util", "signal"] }
reqwest = { version = "=0.12.28", default-features = false, features = ["json"] }
