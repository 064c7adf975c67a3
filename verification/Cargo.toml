[package]
name = "rusty_chat"
version = "0.1.0"
edition = "2021"
publish = false

[dependencies]
tokio = { version = "1", features = ["sync", "net", "rt-multi-thread", "macros", "io-util", "time"] }
tokio-util = { version = "0.7", features = ["codec"] }
tokio-stream = "0.1"
futures = "0.3"
crossterm = "0.25"
tui = "0.19"

[dev-dependencies]
serde_json = "1"
