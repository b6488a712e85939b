[package]
name = "pos_features"
version = "0.1.0"
edition = "2021"
publish = false

[dependencies]
anyhow = "1"
itertools = "0.10"
rayon = "1"
serde = { version = "1", features = ["derive"] }
smallvec = "1"
