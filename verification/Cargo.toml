[package]
name = "ascon"
version = "0.1.0"
edition = "2021"
publish = false

[dependencies]
subtle = { version = "2", default-features = false }
zeroize = { version = "1", default-features = false }
