[package]
name = "magnet_miner"
version = "0.1.0"
edition = "2021"
publish = false

[dependencies]
anyhow = "1"
chrono = "0.4"
colored = "2"
console = "0.15"
crossterm = "0.27"
dialoguer = "0.11"
ethers = { version = "2", default-features = false }
futures = "0.3"
hex = "0.4"
lazy_static = "1"
num-bigint = "0.4"
num_cpus = "1"
num-traits = "0.2"
rand = "0.8"
ratatui = "0.26"
serde = "1"
tokio = { version = "1", features = ["full"] }
