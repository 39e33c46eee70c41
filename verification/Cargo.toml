[package]
name = "walletui"
version = "0.1.0"
edition = "2021"
publish = false

[dependencies]
color-eyre = "0.6"
ratatui = "0.29"
rpassword = "7"
sha2 = "0.10"
hmac = "0.12"
pbkdf2 = "0.12"
