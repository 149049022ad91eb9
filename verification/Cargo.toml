[package]
name = "allocator"
version = "0.1.0"
edition = "2021"
publish = false

[dependencies]
crossbeam-utils = "*"
cache-padded = "*"
libc = "0.2"
errno = "*"
