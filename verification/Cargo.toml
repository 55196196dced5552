[package]
name = "textpack"
version = "0.1.0"
edition = "2021"
publish = false

[dependencies]
miniz_oxide = "*"
lz4_flex = "*"
zstd = "*"
hex = "*"
