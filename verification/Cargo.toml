[package]
name = "cds_core"
version = "0.1.0"
edition = "2021"
publish = false

[dependencies]
p256 = { version = "0.13", features = ["hash2curve"] }
rand = "0.8"
sha2 = "0.10"
uuid = { version = "1", features = ["v4"] }
