[package]
name = "triggerfs"
version = "0.1.0"
edition = "2021"
publish = false

[dependencies]
notify = { version = "=6.1.1", features = ["serde"] }
regex = "=1.13.1"
infer = "=0.22.0"
tokio = { version = "=1.54.1", features = ["full"] }
serde = { version = "=1.0.229", features = ["derive"] }
serde_json = "=1.0.154"
tracing = "=0.1.44"
tracing-subscriber = "=0.3.23"
daemonize = "=0.5.0"
dirs = "=7.0.0"
futures = "=0.3.34"
