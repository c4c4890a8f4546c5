[package]
name = "cashu_rs"
version = "0.1.0"
edition = "2021"
publish = false

[dependencies]
bitcoin = "=0.32.102"
cashu = "=0.18.2"
lightning-invoice = "=0.34.1"
