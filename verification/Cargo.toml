[package]
name = "blockserver"
version = "0.1.0"
edition = "2021"
publish = false

[dependencies]
rand = "0.8"
uuid = { version = "1", features = ["v4"] }

[dev-dependencies]
byteorder = "1"
