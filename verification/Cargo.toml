[package]
name = "dupfinder"
version = "0.1.0"
edition = "2021"
publish = false

[dependencies]
sha2 = "0.9"
digest = "0.9"
clap = "2"
walkdir = "2"
