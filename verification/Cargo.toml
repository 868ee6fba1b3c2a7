[package]
name = "hacksaw"
version = "0.1.0"
edition = "2021"
publish = false

[dependencies]
structopt = "0.3"
x11rb = { version = "0.7", features = ["shape"] }
