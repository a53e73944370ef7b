[package]
name = "pmd_farc"
version = "0.1.0"
edition = "2021"
publish = false

[dependencies]
byteorder = "1"
crc = "1"
io_partition = "*"
pmd_sir0 = "*"
thiserror = "1"
