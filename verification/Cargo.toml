[package]
name = "gmod_wstool"
version = "0.1.0"
edition = "2021"
publish = false

[dependencies]
serde_json = "1"
wildmatch = "*"
gma-lite = "*"
lzma-rust2 = "*"
ureq = "3"
steamworks = "*"
cap-std = "*"
arc-swap = "1"
open = "5"
