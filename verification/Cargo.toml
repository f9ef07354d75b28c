[package]
name = "cokacdir"
version = "0.1.0"
edition = "2021"
publish = false

[dependencies]
chrono = "0.4"
crossterm = "0.28"
dirs = "5"
libc = "0.2"
rand = "0.8"
ratatui = "0.28"
ratatui-image = "1"
sha2 = "0.10"
unicode-width = "0.1"
