[package]
name = "dipper"
version = "0.1.0"
edition = "2021"
publish = false

[dependencies]
rss = "*"
chrono = "*"
reqwest = { version = "*", default-features = false, features = ["blocking"] }
rusqlite = { version = "*", features = ["bundled"] }
clap = { version = "*", features = ["derive"] }
opml = "*"
slug = "*"
