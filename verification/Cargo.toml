[package]
name = "chatroom"
version = "0.1.0"
edition = "2021"
publish = false

[dependencies]
hmac = "0.12"
jwt = "0.16"
sha2 = "0.10"
tokio = { version = "1", features = ["net", "io-util", "sync", "rt-multi-thread", "macros", "time"] }
