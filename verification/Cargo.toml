[package]
name = "gtest_runner"
version = "0.1.0"
edition = "2021"
publish = false

[dependencies]
anyhow = "*"
clap = { version = "*", features = ["derive", "env"] }
console = "*"
crossbeam = "*"
indicatif = "*"

[dev-dependencies]
itertools = "*"
