[package]
name = "gorilla"
version = "0.1.0"
edition = "2021"
publish = false

[dependencies]
leb128 = "0.2"
unicode-segmentation = "1"
console = "0.15"
