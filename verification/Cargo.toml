[package]
name = "dmi"
version = "0.1.0"
edition = "2021"
publish = false

[dependencies]
png = "0.17"
image = { version = "0.24", default-features = false, features = ["png"] }
