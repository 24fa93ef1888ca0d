[package]
name = "numbat_fmt"
version = "0.1.0"
edition = "2021"
publish = false

[dependencies]
itertools = "0.13"
num-traits = "0.2"
