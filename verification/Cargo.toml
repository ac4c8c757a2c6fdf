[package]
name = "plat"
version = "0.1.0"
edition = "2021"
publish = false

[dependencies]
clap = "4"
dialoguer = "*"
fs_extra = "1"
glob = "0.3"
indicatif = "*"
peekmore = "*"
