[package]
name = "observable"
version = "0.1.0"
edition = "2021"

[dependencies]
dependent_view = "*"
