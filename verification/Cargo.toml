[package]
name = "katan"
version = "0.1.0"
edition = "2021"
publish = false

[dependencies]
rand = "0.9"
rand_xoshiro = "0.7"
itertools = "0.14"
serde = { version = "1", features = ["derive"] }
