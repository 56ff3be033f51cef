[package]
name = "evfmt"
version = "0.1.0"
edition = "2021"
publish = false

[dependencies]
clap = "4"
ignore = "0.4"
tempfile = "3"
xattr = "1"
