[package]
name = "osmpbf"
version = "0.1.0"
edition = "2021"
publish = false

[dependencies]
flate2 = "1"
memmap2 = "0.9"
rayon = "1"
