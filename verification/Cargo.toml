[package]
name = "chessticot_uci"
version = "0.1.0"
edition = "2021"
publish = false

[dependencies]
libchessticot = "*"
