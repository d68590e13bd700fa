[package]
name = "unblock_me"
version = "0.1.0"
edition = "2021"
publish = false

[dependencies]
itertools = "*"
coffee = { version = "0.3", default-features = false, features = ["opengl"] }
