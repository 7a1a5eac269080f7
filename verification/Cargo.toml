[package]
name = "orderbook"
version = "0.1.0"
edition = "2021"
publish = false

[dependencies]
bigdecimal = "=0.4.11"
colored = "=3.1.1"
prost = "=0.14.4"
serde = { version = "=1.0.229", features = ["derive"] }
