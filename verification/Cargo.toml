[package]
name = "redart"
version = "0.1.0"
edition = "2021"
publish = false

[dependencies]
nuid = "*"
queues = "*"
rand = "0.8"
