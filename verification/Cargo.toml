[package]
name = "embarch-topology"
version = "0.1.0"
edition = "2021"
publish = false

[dependencies]
anyhow = "1"
axum = "=0.8.9"
clap = { version = "=4.6.7", features = ["derive"] }
futures-util = "0.3"
probe-rs = "=0.32.0"
reqwest = { version = "=0.12.28", default-features = false }
serde = { version = "1", features = ["derive"] }
serde_json = "1"
serialport = { version = "=4.10.1", default-features = false, features = ["usbportinfo-interface"] }
tokio = { version = "1", features = ["macros", "net", "rt-multi-thread", "signal", "sync", "time"] }
tokio-stream = { version = "0.1", features = ["sync"] }
toml = "=1.1.8"
tracing = "0.1"
tracing-subscriber = "0.3"
