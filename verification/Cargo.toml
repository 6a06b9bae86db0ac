[package]
name = "zipserve"
version = "0.1.0"
edition = "2021"
publish = false

[dependencies]
brotli = "*"
crc32fast = "*"
inflate = "*"
zip_structs = "*"
