[package]
name = "overlay_index"
version = "0.1.0"
edition = "2021"
publish = false

[dependencies]
anyhow = "*"
blake3 = "*"
hashbrown = "*"
parking_lot = "*"
rayon = "*"
serde = { version = "*", features = ["derive"] }
serde_json = "*"
uuid = { version = "*", features = ["v4"] }
walkdir = "*"
