[package]
name = "testl"
version = "0.1.0"
edition = "2021"
publish = false

[dependencies]
chumsky = "=0.13.0"
inkwell = { version = "*", features = ["llvm15-0"] }
logos = "=0.16.1"
regex = "=1.13.1"
