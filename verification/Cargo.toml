[package]
name = "packager"
version = "0.1.0"
edition = "2021"
publish = false

[dependencies]
anyhow = "1"
flate2 = "1"
git2 = { version = "*", default-features = false }
same-file = "1"
tar = { version = "0.4", default-features = false }
walkdir = "2"
