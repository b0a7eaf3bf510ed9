[package]
name = "lophat"
version = "0.1.0"
edition = "2021"
publish = false

[dependencies]
crossbeam = "*"
hashbrown = "*"
pinboard = "*"
rayon = "*"
