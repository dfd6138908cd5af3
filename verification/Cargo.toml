[package]
name = "static_spa_routes"
version = "0.1.0"
edition = "2021"
publish = false

[dependencies]
walkdir = "*"
proc-macro2 = "*"
quote = "*"
