[package]
name = "bft_core"
version = "0.1.0"
edition = "2021"
publish = false

[dependencies]
crossbeam-channel = "0.3"
min-max-heap = "1.2"
rand_core = "0.4"
rand_pcg = "0.1"
serde = { version = "1.0", features = ["derive"] }
