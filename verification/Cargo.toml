[package]
name = "helix_db"
version = "0.1.0"
edition = "2021"
publish = false

[dependencies]
itertools = "0.14"
heed3 = "0.22"
bincode = "1.3"
serde = { version = "1", features = ["derive"] }
tracing = "0.1"
