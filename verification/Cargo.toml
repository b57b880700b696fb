[package]
name = "capycrypt"
version = "0.1.0"
edition = "2021"
publish = false

[dependencies]
byteorder = "1"
chrono = { version = "0.4", default-features = false, features = ["clock"] }
num = "0.4"
num-bigint = "0.4"
rand = "0.8"
rug = { version = "1", default-features = false, features = ["integer"] }
