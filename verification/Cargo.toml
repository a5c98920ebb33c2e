[package]
name = "pagestore"
version = "0.1.0"
edition = "2021"
publish = false

[dependencies]
roaring = "*"
clap = { version = "*", features = ["derive"] }
futures = "*"
log = "*"
rand = "*"
