[package]
name = "kernel"
version = "0.1.0"
edition = "2021"
publish = false

[dependencies]
x86_64 = { version = "=0.15.5", default-features = false, features = ["instructions"] }
limine = "=0.5.0"
heapless = "=0.8.0"
tar-no-std = "0.3"
