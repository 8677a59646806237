[package]
name = "tetris_board"
version = "0.1.0"
edition = "2021"
publish = false

[dependencies]
enigo = "0.1"
opencv = "0.80"
