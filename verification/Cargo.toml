[package]
name = "sleipnir"
version = "0.1.0"
edition = "2021"
publish = false

[dependencies]
tokio = { version = "=1.54.1", features = ["full"] }
crossterm = "=0.28.1"
ratatui = "=0.29.0"
tui-textarea = "=0.7.0"
serde = { version = "=1.0.229", features = ["derive"] }
serde_json = "=1.0.154"
thiserror = "=2.0.21"
tracing = "=0.1.44"
tracing-subscriber = "=0.3.23"
notify = "=6.1.1"
regex = "1"
toml = "0.8"
