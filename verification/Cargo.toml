[package]
name = "sketches_rust"
version = "0.1.0"
edition = "2021"
publish = false

[dependencies]
protobuf = "3"
