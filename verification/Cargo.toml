[package]
name = "lab_allocator"
version = "0.1.0"
edition = "2021"
publish = false

[dependencies]
rlsf = "=0.2.3"
