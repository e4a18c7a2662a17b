[package]
name = "idp_image"
version = "0.1.0"
edition = "2021"
publish = false

[dependencies]
byteorder = "1.5"
num = { version = "0.4", default-features = false }
