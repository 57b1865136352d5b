[package]
name = "nft_art"
version = "0.1.0"
edition = "2021"
publish = false

[dependencies]
adler = "1"
crc = "3"
fastrand = "2"
base64 = "0.22"

[dev-dependencies]
flate2 = "1"
png = "0.17"
rand = "0.8"
hex = "0.4"
