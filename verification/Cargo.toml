[package]
name = "balatro_core"
version = "0.1.0"
edition = "2021"
publish = false

[dependencies]
rand = "*"
unicode-segmentation = "*"
ratatui = "*"
crossterm = { version = "*", features = ["event-stream"] }
tokio = { version = "*", features = ["rt-multi-thread", "macros", "sync", "time"] }
tokio-util = "*"
futures = "*"
color-eyre = "*"
tui-big-text = "*"
