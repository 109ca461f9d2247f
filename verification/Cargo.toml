[package]
name = "automancy"
version = "0.1.0"
edition = "2021"
publish = false

[dependencies]
hashbrown = "=0.17.1"
hexagon_tiles = "=0.2.1"
rand = "=0.8.8"
cgmath = "=0.18.0"
serde = { version = "=1.0.229", features = ["derive"] }
ron = "0.8"
zstd = "0.13"
