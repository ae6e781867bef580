[package]
name = "osmgraph"
version = "0.1.0"
edition = "2021"
publish = false

[dependencies]
petgraph = "*"
serde = { version = "*", features = ["derive"] }
serde_json = "*"
tokio = { version = "*", features = ["rt", "fs", "io-util"] }
reqwest = { version = "*", default-features = false }
