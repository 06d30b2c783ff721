[package]
name = "domtui"
version = "0.1.0"
edition = "2021"
publish = false

[dependencies]
ratatui = "0.29"
copypasta = "0.10"
