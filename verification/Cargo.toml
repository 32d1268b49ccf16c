[package]
name = "spog_ui"
version = "0.1.0"
edition = "2021"
publish = false

[dependencies]
packageurl = "*"
urlencoding = "*"
url = "*"
