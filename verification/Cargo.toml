[package]
name = "programinduction"
version = "0.1.0"
edition = "2021"
publish = false

[dependencies]
polytype = "=1.2.6"
