[package]
name = "convbump"
version = "0.1.0"
edition = "2021"
publish = false

[dependencies]
semver = "1"
regex = "1"
git2 = { version = "*", default-features = false }
