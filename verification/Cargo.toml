[package]
name = "bapi_dmm_reader"
version = "0.1.0"
edition = "2021"
publish = false

[dependencies]
byondapi = "=0.5.14"
eyre = "=0.6.14"
tracy_full = "=1.9.0"
