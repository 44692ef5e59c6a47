[package]
name = "pic2term"
version = "0.1.0"
edition = "2021"
publish = false

[dependencies]
ansi_term = "0.12"
clap = "2"
image = "0.24"
termsize = "0.1"
