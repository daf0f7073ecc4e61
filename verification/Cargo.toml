[package]
name = "measure_layout"
version = "0.1.0"
edition = "2021"
publish = false

[dependencies]
z3 = "*"
fraction = "*"
anyhow = "*"

[dev-dependencies]
rand = "*"
