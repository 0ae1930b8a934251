[package]
name = "infinichess"
version = "0.1.0"
edition = "2021"
publish = false

[dependencies]
num-bigint = "*"
num-traits = "*"
