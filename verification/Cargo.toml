[package]
name = "padamo"
version = "0.1.0"
edition = "2021"
publish = false

[dependencies]
chrono = "=0.4.45"
ordered_hash_map = "*"
regex = "=1.13.1"
serde = { version = "=1.0.229", features = ["derive"] }
