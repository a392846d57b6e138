[package]
name = "pocky"
version = "0.1.0"
edition = "2021"
publish = false

[dependencies]
pulldown-cmark = { version = "0.9", default-features = false }
serde = "1"
serde_yaml = "0.9"
