[package]
name = "lumifox_chess"
version = "0.1.0"
edition = "2021"

[dependencies]
fxhash = "0.2"
