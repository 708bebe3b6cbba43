[package]
name = "room_relay"
version = "0.1.0"
edition = "2021"
publish = false

[dependencies]
base64 = "=0.13.1"
rust-crypto = "=0.2.36"
rand = "=0.8.8"
tokio = { version = "=1.53.2", features = ["sync", "net", "io-util", "rt-multi-thread", "macros", "time"] }
