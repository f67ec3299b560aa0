[package]
name = "tbmp"
version = "0.1.0"
edition = "2021"
publish = false

[dependencies]
bincode = "1.3"
crossbeam-channel = "0.5"
serde = { version = "1", features = ["derive"] }
