[package]
name = "token_patch"
version = "0.1.0"
edition = "2021"
publish = false

[dependencies]
diffus = "*"
diffus-derive = "*"
unidiff = "*"
ansi_term = "*"
clap = { version = "*", features = ["derive"] }
