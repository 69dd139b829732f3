[package]
name = "wg_core"
version = "0.1.0"
edition = "2021"
publish = false

[dependencies]
hex = "=0.4.3"
byteorder = "=1.5.0"
snow = "=0.9.6"
