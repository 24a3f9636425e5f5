[package]
name = "rusty_rubik"
version = "0.1.0"
edition = "2021"
publish = false

[dependencies]
clap = "*"
colored = "*"
lazy_static = "*"
num-derive = "*"
num-traits = "*"
priority-queue = "*"
pyo3 = "*"
regex = "*"
strum = "*"
strum_macros = "*"
