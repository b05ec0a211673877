[package]
name = "amqp-engine"
version = "0.1.0"
edition = "2021"
publish = false

[dependencies]
bytes = "1"
parking_lot = "0.12"
slab = "0.4"
tokio = { version = "1", features = ["sync", "rt", "macros"] }
tokio-util = { version = "0.7", features = ["codec"] }
