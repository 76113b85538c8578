[package]
name = "dowsing"
version = "0.1.0"
edition = "2021"
publish = false

[dependencies]
libc = "0.2"
parking_lot = "0.12"
rand = { version = "0.9", features = ["small_rng"] }
rayon = "1"
rustc-hash = "2"
serde_json = "1"
tokio = { version = "1", features = ["rt", "rt-multi-thread", "time", "net"] }
