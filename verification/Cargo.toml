[package]
name = "gitmoto"
version = "0.1.0"
edition = "2021"
publish = false

[dependencies]
anyhow = "=1.0.104"
async-stream = "=0.3.6"
crossterm = { version = "=0.29.0", features = ["event-stream"] }
dirs = "=7.0.0"
futures = "=0.3.34"
globset = "=0.4.20"
octocrab = "=0.44.1"
ratatui = "=0.30.2"
serde = { version = "=1.0.229", features = ["derive"] }
shellexpand = "=3.1.2"
subprocess = "=1.2.1"
tokio = { version = "=1.53.2", features = ["rt", "macros", "sync", "fs", "time", "io-util"] }
tokio-stream = { version = "=0.1.19", features = ["fs"] }
toml = "=1.1.6"
tracing = "=0.1.44"
tracing-subscriber = { version = "=0.3.23", features = ["env-filter"] }
tui-input = "=0.15.5"
xdg = "=3.0.0"
