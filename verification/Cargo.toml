[package]
name = "kaltura_client_rs"
version = "0.1.0"
edition = "2021"
publish = false

[dependencies]
aes = "*"
base64 = "*"
cbc = "*"
rand = "*"
reqwest = { version = "*", default-features = false }
serde_qs = "*"
sha1 = "*"
