[package]
name = "procview"
version = "0.1.0"
edition = "2021"
publish = false

[dependencies]
ansi_term = "*"
console = "*"
pager = "*"
which = "*"
