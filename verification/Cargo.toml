[package]
name = "parquet_nested"
version = "0.1.0"
edition = "2021"
publish = false

[dependencies]
ethnum = "1"
