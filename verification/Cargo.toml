[package]
name = "powledger"
version = "0.1.0"
edition = "2021"
publish = false

[dependencies]
sha2 = "0.10"
ripemd = "0.1"
rust-crypto = "0.2"
chrono = "0.4"
rand = "0.8"
bitcoincash-addr = "*"
sled = "*"
clap = { version = "4", features = ["derive"] }
