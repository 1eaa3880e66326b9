[package]
name = "spsheet"
version = "0.1.0"
edition = "2021"
publish = false

[dependencies]
chrono = "*"
era-jp = "*"
quick-xml = "*"
tempdir = "*"
time = "*"
walkdir = "*"
zip = "*"
