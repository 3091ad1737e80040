[package]
name = "pf"
version = "0.1.0"
edition = "2021"
publish = false

[dependencies]
chrono = { version = "0.4", features = ["serde"] }
clap = { version = "4", features = ["derive"] }
clap_complete = "4"
colored = "2"
comfy-table = "7"
crossterm = "0.28"
dirs = "5"
nix = { version = "0.29", features = ["fs", "process", "signal"] }
ratatui = "0.29"
serde = { version = "1", features = ["derive"] }
serde_json = "1"
signal-hook = "0.3"
thiserror = "1"
toml = "0.8"
