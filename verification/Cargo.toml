[package]
name = "qparse"
version = "0.1.0"
edition = "2021"
publish = false

[dependencies]
nom = "8"
unicode-ident = "1"
proc-macro2 = "1"
quote = "1"
syn = { version = "2", features = ["full"] }
