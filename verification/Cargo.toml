[package]
name = "caltraind"
version = "0.1.0"
edition = "2021"
publish = false

[dependencies]
scraper = "=0.29.0"
ego-tree = "=0.11.1"
regex = "=1.13.1"
once_cell = "=1.21.4"
serde = { version = "=1.0.229", features = ["derive"] }
serde_yaml = "=0.9.34"
clap = { version = "=4.6.7", features = ["cargo"] }
actix = "=0.13.5"
actix-broker = "=0.4.4"
actix-web = "=4.18.1"
awc = "=3.11.0"
futures = "=0.3.34"
nix = { version = "=0.31.3", features = ["signal"] }
notify-rust = "=4.18.2"
chrono = "=0.4.45"
time = "=0.3.55"
daemonize = "=0.5.0"
