[package]
name = "comment_purge"
version = "0.1.0"
edition = "2021"
publish = false

[dependencies]
anyhow = "1"
regex = "1"
thiserror = "1"
