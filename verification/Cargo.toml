[package]
name = "parquet_exp"
version = "0.1.0"
edition = "2021"
publish = false

[dependencies]
parquet = { version = "*", default-features = false, features = ["snap"] }

[dev-dependencies]
bytes = "1"
