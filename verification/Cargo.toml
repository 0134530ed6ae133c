[package]
name = "aicg"
version = "0.1.0"
edition = "2021"
publish = false

[dependencies]
anyhow = "1"
clap = { version = "4", features = ["derive"] }
glob = "=0.3.4"
linefeed = "=0.6.0"
reqwest = { version = "=0.13.5", default-features = false, features = ["json"] }
rig-core = "=0.38.2"
serde = { version = "1", features = ["derive"] }
serde_json = "=1.0.154"
thiserror = "2"
tokio = { version = "1", features = ["macros", "rt-multi-thread"] }
tracing = "0.1"
tracing-subscriber = { version = "0.3", features = ["env-filter"] }
walkdir = "=2.5.0"
