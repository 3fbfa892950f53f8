[package]
name = "aoc2019"
version = "0.1.0"
edition = "2021"
publish = false

[dependencies]
colored = "*"
rayon = "*"
reqwest = { version = "*", default-features = false, features = ["blocking", "cookies"] }
