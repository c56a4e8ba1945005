[package]
name = "tx_query"
version = "0.1.0"
edition = "2021"
publish = false

[dependencies]
anyhow = "1"
futures = "0.3"
tokio-stream = "0.1"
itertools = "0.10"
fuel-tx = "0.35"
