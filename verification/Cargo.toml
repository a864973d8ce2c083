[package]
name = "avin"
version = "0.1.0"
edition = "2021"
publish = false

[dependencies]
chrono = "0.4.45"
polars = { version = "0.50.0", features = ["lazy", "parquet"] }
tokio = { version = "1", features = ["macros", "rt-multi-thread"] }
time-unit = "*"
