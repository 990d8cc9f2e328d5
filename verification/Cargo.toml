[package]
name = "evm2cspr"
version = "0.1.0"
edition = "2021"
publish = false

[dependencies]
ethnum = "*"
sha3 = "*"
hex = "*"
clap = { version = "*", features = ["derive"] }
wild = "*"
