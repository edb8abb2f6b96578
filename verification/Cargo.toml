[package]
name = "technique"
version = "0.1.0"
edition = "2021"
publish = false

[dependencies]
clap = "*"
tracing-subscriber = "*"
