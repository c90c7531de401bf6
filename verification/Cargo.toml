[package]
name = "cgp"
version = "0.1.0"
edition = "2021"
publish = false

[dependencies]
rand = "0.8"
itertools = "0.10"
nohash-hasher = "0.2"
float_eq = "1"
statrs = "0.16"
flate2 = "1"
clap = { version = "4", features = ["derive"] }
