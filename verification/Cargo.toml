[package]
name = "celltrace"
version = "0.1.0"
edition = "2021"
publish = false

[dependencies]
hex = "0.4"
indexmap = "1"
flate2 = "1"
xml-rs = "0.8"
tabled = "0.8"
cpython = "0.7"
