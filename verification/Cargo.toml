[package]
name = "iparse"
version = "0.1.0"
edition = "2021"
publish = false

[dependencies]
memchr = "2"
nom = "7"
nom_locate = "4"
humantime = "2"
