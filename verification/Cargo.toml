[package]
name = "read-bin"
version = "0.1.11"
edition = "2021"
publish = false

[dependencies]
ratatui = "0.29"
crossterm = "0.28"
memmap2 = "0.9"
arboard = { version = "3", default-features = false }
