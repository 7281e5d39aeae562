[package]
name = "treescan"
version = "0.1.0"
edition = "2021"
publish = false

[dependencies]
regex = "1"
text-colorizer = "*"
chrono = "0.4"
libc = "0.2"
term_size = "*"
