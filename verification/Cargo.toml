[package]
name = "turing"
version = "0.1.0"
edition = "2021"
publish = false

[dependencies]
ansi_term = "*"
crossterm_cursor = "*"
crossterm_terminal = "*"
