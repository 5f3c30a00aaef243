[package]
name = "rustlab"
version = "0.1.0"
edition = "2021"
publish = false

[dependencies]
arrayvec = "0.7"
bit-vec = "0.8"
colored = "*"
crossterm = "0.28"
rand = "0.9"
ratatui = "0.29"
rayon = "1"
