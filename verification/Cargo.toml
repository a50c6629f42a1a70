[package]
name = "jam"
version = "0.1.0"
edition = "2021"
publish = false

[dependencies]
anyhow = "1"
clap = { version = "4", features = ["derive"] }
cpal = "0.15"
crossbeam-channel = "0.5"
crossterm = "0.28"
opus = "0.3"
rtrb = "0.3"
thiserror = "1"
tracing-subscriber = { version = "0.3", features = ["env-filter"] }
