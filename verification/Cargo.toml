[package]
name = "strict_types"
version = "0.1.0"
edition = "2021"
publish = false

[dependencies]
amplify = "=4.9.0"
strict_encoding = "=2.9.1"
sha2 = "=0.10.9"
baid64 = "=0.4.2"
