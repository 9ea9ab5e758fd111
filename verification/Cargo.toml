[package]
name = "linear-tools"
version = "0.1.0"
edition = "2021"
publish = false

[dependencies]
byteorder = "1"
zstd = "0.13"
clap = { version = "4", features = ["derive"] }
rayon = "1"
