[package]
name = "shard"
version = "0.1.0"
edition = "2021"
publish = false

[dependencies]
anyhow = "1"
clap = { version = "4", features = ["derive"] }
console = "*"
crossterm = "0.28"
dialoguer = "*"
env_logger = "0.11"
fs2 = "*"
image = { version = "0.25", default-features = false, features = ["png"] }
indicatif = "*"
log = "0.4"
ratatui = "0.29"
rayon = "1"
roxmltree = "*"
serde = { version = "1", features = ["derive"] }
ssimulacra2 = "*"
tempfile = "3"
thiserror = "*"
usvg = "*"
walkdir = "2"
webp = "*"
