[package]
name = "gmtc"
version = "0.1.0"
edition = "2021"
publish = false

[dependencies]
dirs = "5"
encoding_rs = "0.8"
env_logger = "0.10"
log = "0.4"
rusqlite = "0.31"
scopeguard = "1"
sha2 = "0.10"
