[package]
name = "smart_order_router"
version = "0.1.0"
edition = "2021"
publish = false

[dependencies]
revm = { version = "14", default-features = false, features = ["std"] }
eyre = "0.6"
tracing = "0.1"
