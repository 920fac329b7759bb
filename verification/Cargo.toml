[package]
name = "featrs"
version = "0.1.0"
edition = "2021"
publish = false

[dependencies]
polars = { version = "*", default-features = false, features = ["lazy", "temporal", "dtype-date", "dtype-datetime", "fmt"] }
regex = "*"
statrs = "*"
