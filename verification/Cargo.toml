[package]
name = "balances"
version = "0.1.0"
edition = "2021"
publish = false

[dependencies]
anyhow = "=1.0.104"
comfy-table = "=8.0.1"

[dev-dependencies]
numfmt = "=1.2.0"
polars = { version = "=0.50.0", default-features = false, features = ["lazy", "csv", "cum_agg", "dtype-date", "temporal", "fmt"] }
polars-arrow = { version = "=0.50.0", default-features = false }
