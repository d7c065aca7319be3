[package]
name = "gorc_keys"
version = "0.1.0"
edition = "2021"
publish = false

[dependencies]
k256 = "0.13"
sha2 = "0.10"
ripemd = "0.1"
bech32 = "*"
rand = "0.8"
