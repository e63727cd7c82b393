[package]
name = "rlz4"
version = "0.4.0"
edition = "2021"
publish = false

[dependencies]
lzzzz = "=2.0.0"
magnus = "=0.8.4"
rb-sys = "=0.9.130"
