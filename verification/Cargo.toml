[package]
name = "ziped"
version = "0.1.0"
edition = "2021"
publish = false

[dependencies]
zip = { version = "*", default-features = false }
encoding_rs = "*"
glob = "*"
tempfile = "*"

[dev-dependencies]
wildmatch = "*"
