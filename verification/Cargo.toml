[package]
name = "fibonacci_like"
version = "0.1.0"
edition = "2021"
publish = false

[dependencies]
num-bigint = "*"
