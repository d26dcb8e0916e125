[package]
name = "lazylink"
version = "0.1.0"
edition = "2021"
publish = false

[dependencies]
libloading = "*"
proc-macro2 = "1"
quote = "1"
syn = { version = "1", features = ["full"] }
