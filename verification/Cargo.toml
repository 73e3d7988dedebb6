[package]
name = "ecore-launcher"
version = "0.1.0"
edition = "2021"
publish = false

[dependencies]
clap = { version = "4", features = ["derive"] }
fs2 = "0.4"
ioprio = "*"
nix = { version = "0.29", features = ["fs", "process", "sched", "signal", "poll", "resource", "user", "event", "term"] }
ratatui = "0.28"
rustix = { version = "0.38", features = ["process"] }
serde = { version = "1", features = ["derive"] }
serde_json = "1"
thiserror = "1"
toml = "0.8"
