[package]
name = "localtex"
version = "0.1.0"
edition = "2021"
publish = false

[dependencies]
regex = "=1.13.1"
chrono = "=0.4.45"
libc = "=0.2.191"

[dev-dependencies]
uuid = "=1.29.0"
