[package]
name = "chess_rs"
version = "0.1.0"
edition = "2021"
publish = false

[dependencies]
rand = "=0.8.8"
rustc-hash = "=1.1.0"

[dev-dependencies]
regex = "1"
