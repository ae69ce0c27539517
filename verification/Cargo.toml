[package]
name = "omg_runtime"
version = "0.1.2"
edition = "2021"
publish = false

[dependencies]
once_cell = "1"
