[package]
name = "code_copier"
version = "0.1.0"
edition = "2021"
publish = false

[dependencies]
toml = "0.8"
walkdir = "2"
clipboard = "0.5"
clipboard-win = "4"
