[package]
name = "rlocate"
version = "0.1.0"
edition = "2021"
publish = false

[dependencies]
regex = "1"
clap = { version = "4", features = ["cargo"] }
dirs = "*"
mountpoints = "*"
rusqlite = { version = "*", features = ["functions"] }
spinners = "*"
walkdir = "2"
