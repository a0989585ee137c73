[package]
name = "gears_core"
version = "0.1.0"
edition = "2021"
publish = false

[dependencies]
gts = "*"
sea-orm = { version = "2.0.2", default-features = false }
secrecy = "*"
uuid = "1"
