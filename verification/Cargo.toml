[package]
name = "enum_codec"
version = "0.1.0"
edition = "2021"
publish = false

[dependencies]
syn = "1"
miniserde = "0.1"
