[package]
name = "xdrippi"
version = "0.1.0"
edition = "2021"
publish = false

[dependencies]
crossbeam = "0.8"
libbpf-rs = "*"
libc = "0.2"
thiserror = "1"
