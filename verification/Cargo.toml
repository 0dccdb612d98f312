[package]
name = "conduit_proxy"
version = "0.1.0"
edition = "2021"
publish = false

[dependencies]
futures = "0.1"
indexmap = "*"
regex = "*"
