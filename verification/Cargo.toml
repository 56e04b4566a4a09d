[package]
name = "canopen_sdo"
version = "0.1.0"
edition = "2021"
publish = false

[dependencies]
crc = "3"
defmt = "*"
embassy-sync = "*"
embassy-time = "*"
embedded-can = "*"
