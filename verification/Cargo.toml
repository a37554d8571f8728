[package]
name = "htpasswd-verify"
version = "0.3.0"
edition = "2021"
publish = false

[dependencies]
rust-crypto = "0.2.36"
base64 = "0.13"
bcrypt = "*"
pwhash = "1"
