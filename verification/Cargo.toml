[package]
name = "citymux"
version = "0.1.0"
edition = "2021"
publish = false

[dependencies]
vt100 = "=0.15.2"
tokio = { version = "*", features = ["rt-multi-thread", "macros", "io-util", "io-std", "sync", "time"] }
crossterm = { version = "*", features = ["event-stream"] }
futures = "*"
anyhow = "*"
clap = "*"
serde = { version = "*", features = ["derive"] }
serde_cbor = "*"
data-encoding = "*"
which = "*"
dirs = "*"
kdl = "*"
tracing = "*"
tracing-subscriber = "*"
