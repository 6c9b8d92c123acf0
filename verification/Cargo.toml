[package]
name = "lud"
version = "0.1.0"
edition = "2021"
publish = false

[dependencies]
anyhow = "1"
atty = "0.2"
camino = "1"
chrono = "0.4"
clap = { version = "4", features = ["derive"] }
config = "0.14"
crossterm = "0.25"
humansize = "2"
indicatif = "0.17"
log = "0.4"
serde = { version = "1", features = ["derive"] }
simplelog = "0.11"
tabwriter = "1"
tokio = { version = "1", features = ["full"] }
tui = "0.19"
walkdir = "2"

[dev-dependencies]
bincode = "1.3"
