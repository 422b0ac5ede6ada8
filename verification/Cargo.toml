[package]
name = "nesti"
version = "0.1.0"
edition = "2021"
publish = false

[dependencies]
bytesize = "*"
crossterm = "*"
humanize-duration = "*"
num-format = "*"
parking_lot = "*"
stanza = "*"
