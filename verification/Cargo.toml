[package]
name = "notechart_cache"
version = "0.1.0"
edition = "2021"
publish = false

[dependencies]
rusqlite = { version = "*", features = ["bundled"] }
sha2 = "*"
walkdir = "*"

[dev-dependencies]
tempfile = "*"
