[package]
name = "fixedwidth"
version = "0.1.0"
edition = "2021"
publish = false

[dependencies]
regex = "*"
xml-rs = "*"
chrono = "*"
indexmap = "*"
anyhow = "*"
crossbeam = "*"
evalexpr = "*"
