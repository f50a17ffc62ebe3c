[package]
name = "dibtd_ephr"
version = "0.1.0"
edition = "2021"
publish = false

[dependencies]
aes-gcm = "*"
num-bigint = "*"
num-traits = "*"
rand = "*"
secp256k1 = "*"
serde = { version = "*", features = ["derive"] }
sha2 = "*"
