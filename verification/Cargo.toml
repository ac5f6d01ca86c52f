[package]
name = "silverscript_lang"
version = "0.1.0"
edition = "2021"
publish = false

[dependencies]
solang-parser = "*"
