[package]
name = "rooster"
version = "0.1.0"
edition = "2021"
publish = false

[dependencies]
mysql = { version = "*", default-features = false }
flate2 = "1"
log = "0.4"
simple_logger = "*"
