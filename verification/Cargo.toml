[package]
name = "lindera_ffi"
version = "0.1.0"
edition = "2021"
publish = false

[dependencies]
lindera = "=4.0.1"

[dev-dependencies]
daachorse = "=3.0.3"
lindera-dictionary = "=4.0.1"
