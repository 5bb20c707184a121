[package]
name = "obsidian_zola"
version = "0.1.0"
edition = "2021"
publish = false

[dependencies]
clap = { version = "4", features = ["derive"] }
color-eyre = "0.6"
eyre = "0.6"
glob = "0.3"
obsidian-export = "*"
walkdir = "2"

[dev-dependencies]
tempfile = "3"
