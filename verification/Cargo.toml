[package]
name = "wristvault"
version = "0.1.0"
edition = "2021"
publish = false

[dependencies]
rs-asm6805 = "*"
timex-datalink = "*"
