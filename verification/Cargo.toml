[package]
name = "sosistab"
version = "0.1.0"
edition = "2021"
publish = false

[dependencies]
reed-solomon-erasure = "4"
rand = "0.8"
dashmap = "5"
bytes = "1"
probability = "*"
bincode = "1"
serde = { version = "1", features = ["derive"] }
smol = "1"
anyhow = "1"
tracing = "0.1"
