[package]
name = "img2array"
version = "0.1.0"
edition = "2021"
publish = false

[dependencies]
clap = "2.33"
png = "0.16"
