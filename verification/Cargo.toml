[package]
name = "porgi"
version = "0.1.0"
edition = "2021"
publish = false

[dependencies]
chrono = "0.4"
color-eyre = "0.6"
crossterm = { version = "0.27", features = ["event-stream"] }
dirs = "5"
eyre = "0.6"
fancy-duration = { version = "*", features = ["chrono"] }
futures = "0.3"
ignore = "0.4"
ratatui = { version = "0.26", features = ["serde"] }
serde = { version = "1", features = ["derive"] }
shellexpand = "3"
tokio = { version = "1", features = ["full"] }
tokio-stream = { version = "0.1", features = ["fs"] }
toml = "0.8"
which = "6"
