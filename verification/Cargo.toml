[package]
name = "lottery"
version = "0.1.0"
edition = "2021"
publish = false

[dependencies]
rand = "0.8"
calamine = "0.24"
rfd = { version = "0.15", default-features = false, features = ["gtk3"] }
