[package]
name = "re0-parser"
version = "0.1.0"
edition = "2021"
publish = false

[dependencies]
pratt = "=0.4.0"
unicode-ident = "=1.0.27"
url = "=2.5.8"
yggdrasil-rt = "=0.1.3"
