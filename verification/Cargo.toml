[package]
name = "axonmq"
version = "0.1.0"
edition = "2021"
publish = false

[dependencies]
coarsetime = "=0.1.38"
rand = "=0.9.5"
bytes = "=1.12.1"
tokio = { version = "=1.54.1", features = ["rt-multi-thread", "macros", "net", "sync", "time", "signal", "io-util"] }
tokio-util = { version = "=0.7.20", features = ["codec"] }
futures-util = { version = "=0.3.34", features = ["sink"] }
tracing = "=0.1.44"
tracing-subscriber = "=0.3.23"
clap = { version = "=4.6.7", features = ["derive"] }
serde = { version = "=1.0.229", features = ["derive"] }
serde_json = "1"
toml = "=0.8.23"
anyhow = "=1.0.104"
