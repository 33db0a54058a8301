[package]
name = "jonla"
version = "0.1.0"
edition = "2021"
publish = false

[dependencies]
itertools = "0.10"
logos = "0.12"
miette = { version = "5", features = ["fancy"] }
