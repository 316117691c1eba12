[package]
name = "closure_runtime"
version = "0.1.0"
edition = "2021"
publish = false

[dependencies]
gc-arena = "0.1"
