[package]
name = "cramp"
version = "0.1.0"
edition = "2021"
publish = false

[dependencies]
rand = "=0.8.8"
dirs = "=7.0.0"
urlencoding = "2"
