[package]
name = "osteak"
version = "0.1.1"
edition = "2021"
publish = false

[dependencies]
ratatui = "0.30"
crossterm = { version = "0.29", features = ["event-stream"] }
tokio = { version = "1", features = ["rt", "rt-multi-thread", "sync", "macros", "time"] }
futures = "0.3"
futures-core = "0.3"
