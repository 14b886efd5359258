[package]
name = "gitfilter"
version = "0.1.0"
edition = "2021"
publish = false

[dependencies]
globset = "*"
serde = { version = "*", default-features = false }
