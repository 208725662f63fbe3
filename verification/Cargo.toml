[package]
name = "nom_cheatsheet"
version = "0.1.0"
edition = "2021"
publish = false

[dependencies]
nom = "=7.1.3"
comrak = { version = "=0.44.0", default-features = false, features = ["syntect"] }
syntect = { version = "=5.3.0", default-features = false, features = ["default-fancy"] }
