[package]
name = "thistle"
version = "0.1.0"
edition = "2021"
publish = false

[dependencies]
log = "0.4"
polars = { version = "*", default-features = false, features = ["csv"] }
simdeez = "1.0"
uuid = { version = "0.8", features = ["v4"] }
