[package]
name = "trnnut"
version = "0.1.0"
edition = "2021"
publish = false

[dependencies]
serde = { version = "=1.0.229", features = ["derive"] }

[dev-dependencies]
bit_reverse = "=0.1.8"
