[package]
name = "ddshark"
version = "0.1.0"
edition = "2021"
publish = false

[dependencies]
hex = "0.4"
etherparse = "*"
rustdds = "*"
pcap = "*"
clap = { version = "4", features = ["derive"] }
anyhow = "1"
tokio = { version = "1", features = ["full"] }
tokio-util = "0.7"
futures = "0.3"
flume = "*"
chrono = "0.4"
tracing = "0.1"
tracing-subscriber = "0.3"
ctrlc = "3"
csv = "1"
serde = { version = "1", features = ["derive"] }
bytes = "1"
libc = "0.2"
ratatui = "*"
crossterm = "*"
itertools = "*"
parking_lot = "0.12"
dashmap = "*"
arc-swap = "1"
crossbeam-queue = "0.3"
