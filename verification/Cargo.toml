[package]
name = "parsing"
version = "0.1.0"
edition = "2021"
publish = false

[dependencies]
drop_bomb = "0.1"
