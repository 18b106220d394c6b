[package]
name = "claks"
version = "0.1.0"
edition = "2021"
publish = false

[dependencies]
ariadne = "*"
colored = "*"
apple-codesign = { version = "*", default-features = false }
