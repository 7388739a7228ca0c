[package]
name = "auximap"
version = "0.3.1"
edition = "2021"
publish = false

[dependencies]
anyhow = "1"
chrono = "0.4"
encoding_rs = "0.8"
imap = "2.4"
mailparse = "*"
native-tls = "0.2"
rust-ini = { version = "*", features = ["inline-comment"] }
