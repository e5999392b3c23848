[package]
name = "smos"
version = "0.1.0"
edition = "2021"
publish = false

[dependencies]
offset-allocator = "=0.2.0"
byteorder = { version = "=1.5.0", default-features = false }
elf = { version = "0.7", default-features = false }
