[package]
name = "ln-routing-replay"
version = "0.1.0"
edition = "2021"
publish = false

[dependencies]
bitcoin = "=0.32.102"
lightning = { version = "=0.2.7", default-features = false }
