[package]
name = "tofu"
version = "0.1.0"
edition = "2021"
publish = false

[dependencies]
xi-rope = "0.3"
crossterm = "0.22"
