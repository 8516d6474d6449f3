[package]
name = "polkadex_primitives"
version = "0.1.0"
edition = "2021"
publish = false

[dependencies]
frame-support = "=49.0.0"
parity-scale-codec = { version = "=3.7.5", features = ["derive"] }
scale-info = { version = "=2.11.6", features = ["derive"] }
serde = { version = "=1.0.229", features = ["derive"] }
sp-core = "=43.0.0"
sp-runtime = "=49.0.0"
sp-std = "=14.0.0"
