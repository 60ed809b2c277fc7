[package]
name = "bader"
version = "0.1.0"
edition = "2021"
publish = false

[dependencies]
anyhow = "*"
atomic-counter = "*"
crossbeam-utils = "*"
indicatif = "*"
parking_lot = "*"
rustc-hash = "*"
