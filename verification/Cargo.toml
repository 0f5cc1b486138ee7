[package]
name = "page_archiver"
version = "0.1.0"
edition = "2021"
publish = false

[dependencies]
url = "*"
bytes = "*"
reqwest = { version = "*", default-features = false, features = ["blocking"] }
