[package]
name = "dqcsim"
version = "0.1.0"
edition = "2021"
publish = false

[dependencies]
serde = { version = "1", features = ["derive"] }
serde_json = "1"
serde_cbor = "0.11"
serde-transcode = "1"
integer-sqrt = "0.1"
rand = "0.7"
rand_chacha = "0.2"
num-complex = "0.2"
strum = "*"
named_type = "*"
humantime = "*"
