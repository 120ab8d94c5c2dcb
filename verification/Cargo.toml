[package]
name = "chablo"
version = "0.1.0"
edition = "2021"
publish = false

[dependencies]
pulldown-cmark = "*"
chrono = "0.4"
askama = "*"
clap = { version = "4", features = ["derive"] }
glob = "0.3"
