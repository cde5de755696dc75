[package]
name = "is31fl3731"
version = "1.0.0"
edition = "2021"

[dependencies]
embedded-hal = "0.2.7"
