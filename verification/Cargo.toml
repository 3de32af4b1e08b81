[package]
name = "twine_inspect"
version = "0.1.0"
edition = "2021"
publish = false

[dependencies]
scraper = "*"
dialoguer = { version = "*", features = ["fuzzy-select"] }
indicatif = "*"
minreq = { version = "*", features = ["https"] }
syntect = { version = "*", default-features = false, features = ["default-fancy"] }
