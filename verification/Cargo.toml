[package]
name = "jgrep"
version = "0.1.0"
edition = "2021"
publish = false

[dependencies]
anyhow = "1"
candle-core = "*"
candle-nn = "*"
candle-transformers = "*"
clap = { version = "4", features = ["derive"] }
dirs = "*"
globset = "*"
regex = "1"
serde = { version = "1", features = ["derive"] }
serde_json = "1"
tokenizers = { version = "*", default-features = false }
walkdir = "2"
