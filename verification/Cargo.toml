[package]
name = "create2crunch"
version = "0.1.0"
edition = "2021"
publish = false

[dependencies]
hex = "0.3"
tiny-keccak = "1"
rand = "0.4"
rayon = "1"
fs2 = "0.4"
