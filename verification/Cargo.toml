[package]
name = "snag"
version = "0.1.0"
edition = "2021"
publish = false

[dependencies]
ansi-to-tui = "7"
clap = { version = "4", features = ["derive"] }
crossterm = { version = "0.28", features = ["event-stream"] }
futures-lite = "2"
getrandom = "0.2"
hex = "0.4"
nix = { version = "0.29", features = ["term", "process", "signal", "fs", "ioctl", "user", "poll"] }
ratatui = "0.29"
rmp-serde = "1"
serde = { version = "1", features = ["derive"] }
serde_json = "1"
tokio = { version = "1", features = ["rt", "macros", "net", "io-util", "signal", "sync", "time"] }
toml = "0.8"
