[package]
name = "syr"
version = "0.1.0"
edition = "2021"
publish = false

[dependencies]
syn = { version = "2", features = ["full", "visit", "fold"] }
quote = "1"
prettyplease = "0.2"
