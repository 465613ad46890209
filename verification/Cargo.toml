[package]
name = "gg"
version = "0.1.0"
edition = "2021"
publish = false

[dependencies]
chrono = "=0.4.45"
two-face = { version = "=0.5.1", default-features = false, features = ["syntect-default-fancy"] }
git2 = "=0.19.0"
ratatui = "=0.29.0"
crossterm = "=0.28.1"
notify = "=7.0.0"
dirs = "=5.0.1"
open = "=5.4.5"
serde = { version = "=1.0.229", features = ["derive"] }
serde_json = "=1.0.154"
ureq = { version = "=2.12.1", features = ["json"] }
