[package]
name = "totp"
version = "0.1.0"
edition = "2021"
publish = false

[dependencies]
chrono = "0.4"
generic-array = "0.14"
hmac = "0.10"
md-5 = "0.9"
sha-1 = "0.9"
thiserror = "1"
