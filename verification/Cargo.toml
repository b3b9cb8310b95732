[package]
name = "recast"
version = "0.1.0"
edition = "2021"
publish = false

[dependencies]
zip = { version = "0.6", default-features = false, features = ["deflate"] }
structopt = "0.3"
ansi_term = "0.12"
