[package]
name = "memchr_stuff"
version = "0.1.0"
edition = "2021"
publish = false

[dev-dependencies]
rand = "=0.9.5"
rand_chacha = "=0.9.0"
