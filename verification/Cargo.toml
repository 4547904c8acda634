[package]
name = "ero_blockwheel_kv"
version = "0.1.0"
edition = "2021"
publish = false

[dependencies]
edeltraud = "=0.17.0"
ero = "=0.14.6"
futures = "=0.3.34"
log = "=0.4.34"
