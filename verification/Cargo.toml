[package]
name = "h2"
version = "0.1.0"
edition = "2021"
publish = false

[dependencies]
slab = "0.4"
futures = "0.1"
bytes = "0.4"
tokio-io = "0.1"
