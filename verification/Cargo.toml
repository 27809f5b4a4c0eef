[package]
name = "unix-ancillary"
version = "0.6.0"
edition = "2021"
publish = false

[dependencies]
libc = "0.2"
tokio = { version = "1", features = ["net"] }
