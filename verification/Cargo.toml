[package]
name = "cliphistory"
version = "0.1.0"
edition = "2021"
publish = false

[dependencies]
md-5 = "*"
hex = "*"
rusqlite = { version = "*", features = ["bundled"] }
dirs = "*"
arboard = { version = "*", default-features = false }
