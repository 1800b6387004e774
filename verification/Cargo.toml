[package]
name = "dted2"
version = "0.1.0"
edition = "2021"
publish = false

[dependencies]
nom = "7"
num-traits = "0.2"
