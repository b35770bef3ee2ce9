[package]
name = "kmem"
version = "0.1.0"
edition = "2021"
publish = false

[dependencies]
lazy_static = "=1.5.1"
multiboot2 = "=0.28.0"
pc-keyboard = "=0.9.0"
spin = "=0.12.3"
x86_64 = { version = "=0.15.5", default-features = false, features = ["instructions"] }
