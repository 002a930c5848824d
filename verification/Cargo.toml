[package]
name = "conic_model"
version = "0.1.0"
edition = "2021"
publish = false

[dependencies]
clarabel = "=0.11.1"
itertools = "=0.15.0"
polars = { version = "0.38", default-features = false, features = ["csv", "fmt"] }
