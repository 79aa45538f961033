[package]
name = "dedent"
version = "0.1.0"
edition = "2021"
publish = false

[dependencies]
litrs = "*"
proc-macro2 = "1"
proc-macro-error = "1"
quote = "1"
