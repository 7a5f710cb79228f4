[package]
name = "calculatex"
version = "0.1.0"
edition = "2021"
publish = false

[dependencies]
notify = "4"
pandoc = "0.8"
tempfile = "3"
