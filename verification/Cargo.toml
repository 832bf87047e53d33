[package]
name = "irssi_tg"
version = "0.1.0"
edition = "2021"
publish = false

[dependencies]
chrono = "0.4"
clap = { version = "4", features = ["derive"] }
crossterm = { version = "0.28", features = ["event-stream"] }
dotenvy = "0.15"
futures-util = "0.3"
grammers-client = "*"
grammers-mtsender = "*"
grammers-session = "*"
ratatui = "0.29"
tokio = { version = "1", features = ["full"] }
unicode-width = "*"
