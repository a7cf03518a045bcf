[package]
name = "tkrar"
version = "0.1.0"
edition = "2021"
publish = false

[dependencies]
atty = "0.2"
clap = { version = "4", features = ["derive"] }
color-print = "0.3"
regex = "1"
serde = { version = "1", features = ["derive"] }
serde_json = "1"
stopwords = "0.1"
toml = "*"
unicode-segmentation = "1"
