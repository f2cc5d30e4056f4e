[package]
name = "kind2"
version = "0.1.0"
edition = "2021"

[dependencies]
TSPL = "*"
highlight_error = "*"
im = "15.1.0"
