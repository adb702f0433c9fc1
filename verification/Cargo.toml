[package]
name = "hopgate"
version = "0.1.0"
edition = "2021"
publish = false

[dependencies]
url = "2"
ureq = "2"
afire = "2"
