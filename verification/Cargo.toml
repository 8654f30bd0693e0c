[package]
name = "bookdb"
version = "0.1.0"
edition = "2021"
publish = false

[dependencies]
anyhow = "*"
chrono = "*"
clap = { version = "*", features = ["derive"] }
rayon = "*"
roxmltree = "*"
serde = { version = "*", features = ["derive"] }
serde_json = "*"
url = "*"
walkdir = "*"
xxhash-rust = { version = "*", features = ["xxh3"] }
zip = "*"
