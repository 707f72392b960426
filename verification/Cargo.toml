[package]
name = "falsh"
version = "0.1.0"
edition = "2021"
publish = false

[dependencies]
glob = "*"
dirs = "*"
rustyline = "*"
crossterm = "*"

[dev-dependencies]
tempfile = "*"
