[package]
name = "nous_memory"
version = "0.1.0"
edition = "2021"
publish = false

[dependencies]
roaring = "*"
blake3 = "*"
uuid = { version = "*", features = ["v7"] }
reqwest = { version = "*", default-features = false }
chrono = "*"
serde = { version = "*", features = ["derive"] }
serde_json = "*"
petgraph = "*"
rayon = "*"
nalgebra = "*"
arc-swap = "*"
