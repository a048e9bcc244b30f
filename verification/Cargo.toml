[package]
name = "rsbasic"
version = "0.1.0"
edition = "2021"
publish = false

[dependencies]
crc = "*"
nu-ansi-term = "*"
crossterm = "*"
ctrlc = "*"
rustyline = "*"
rustyline-derive = "*"
ureq = "*"
