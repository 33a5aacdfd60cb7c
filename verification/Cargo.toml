[package]
name = "mboot"
version = "0.1.0"
edition = "2021"
publish = false

[dependencies]
mnu-abi = "*"
sha2 = "0.10"
uefi = { version = "0.28", features = ["alloc"] }
