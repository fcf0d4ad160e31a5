[package]
name = "maud_parse"
version = "0.1.0"
edition = "2021"
publish = false

[dependencies]
literalext = { version = "=0.2.0", default-features = false, features = ["dummy"] }
