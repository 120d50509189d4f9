[package]
name = "snek"
version = "0.1.0"
edition = "2021"
publish = false

[dependencies]
im = "15"
sexp = "1"
thiserror = "1"
