[package]
name = "bitcoin_circle_stark"
version = "0.1.0"
edition = "2021"
publish = false

[dependencies]
anyhow = "1"
bitcoin = "0.32"
clap = { version = "4", features = ["derive"] }
colored = "2"
hex = "0.4"
sha2 = "0.10"
stwo = { version = "2.3", default-features = false }

[dev-dependencies]
rand = "0.8"
rand_chacha = "0.3"
