[package]
name = "kim_temp"
version = "0.1.0"
edition = "2021"
publish = false

[dependencies]
four-char-code = "=0.0.5"
smc = "=0.2.4"
