[package]
name = "progrog"
version = "0.1.0"
edition = "2021"
publish = false

[dependencies]
bracket-random = "=0.8.7"
