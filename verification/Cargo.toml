[package]
name = "virtusdev"
version = "0.1.0"
edition = "2021"
publish = false

[dependencies]
crc = "3"
libc = "0.2"
nix = { version = "*", features = ["term"] }
anyhow = "1"
