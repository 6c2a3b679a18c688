[package]
name = "double_dyn"
version = "0.1.0"
edition = "2021"

[dependencies]
heck = "0.4"
proc-macro2 = "1"
