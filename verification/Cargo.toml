[package]
name = "pgn-reader"
version = "0.1.0"
edition = "2021"
publish = false

[dependencies]
btoi = "0.4"
memchr = "2"
slice-deque = "*"
