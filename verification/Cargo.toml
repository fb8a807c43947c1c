[package]
name = "ctf_writeups"
version = "0.1.0"
edition = "2021"
publish = false

[dependencies]
color-eyre = "0.6"
structopt = "0.3"
walkdir = "2"
