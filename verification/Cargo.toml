[package]
name = "similarity_metrics"
version = "0.1.0"
edition = "2021"
publish = false

[dependencies]
distance = "0.4"
polars = { version = "0.25.1", features = ["lazy", "strings"] }
