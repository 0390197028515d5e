[package]
name = "igrep"
version = "0.1.0"
edition = "2021"
publish = false

[dependencies]
anyhow = "1"
crossterm = "0.25"
grep = "0.2"
ignore = "0.4"
regex = "1"
tui = "0.19"
unicode-width = "0.1"
