[package]
name = "automotive-wire-codec"
version = "0.4.0"
edition = "2021"
publish = false

[dependencies]
embedded-io = "*"
