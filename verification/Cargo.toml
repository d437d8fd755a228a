[package]
name = "totp_cli"
version = "0.1.0"
edition = "2021"
publish = false

[dependencies]
arboard = { version = "3", default-features = false }
base32 = "0.4"
crossterm = "0.27"
hmac = "0.12"
sha1 = "0.10"

[dev-dependencies]
regex = "1"
