[package]
name = "lrgb_merge"
version = "0.1.0"
edition = "2021"
publish = false

[dependencies]
fitrs = "*"
structopt = "0.3"
anyhow = "1"
