[package]
name = "concurrent_slice"
version = "0.1.0"
edition = "2021"
publish = false

[dependencies]
owning_ref = "0.4"
