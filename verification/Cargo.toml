[package]
name = "beholder"
version = "0.1.0"
edition = "2021"
publish = false

[dependencies]
apollo-parser = "*"
gix = "*"
mnestic = "*"
sha2 = "*"
sqlite = "*"
tracing = "*"
