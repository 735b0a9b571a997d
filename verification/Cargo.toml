[package]
name = "delta"
version = "0.1.0"
edition = "2021"
publish = false

[dependencies]
console = "*"
syntect = { version = "*", default-features = false, features = ["parsing", "default-syntaxes", "default-themes", "regex-fancy", "dump-load"] }
