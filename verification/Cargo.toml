[package]
name = "bxenc"
version = "0.1.0"
edition = "2021"
publish = false

[dependencies]
argon2 = "0.5"
bincode = "1.3"
chacha20poly1305 = "0.10"
clap = { version = "4", features = ["derive"] }
hex = "0.4"
rand = "0.8"
readpass = "*"
serde = { version = "1", features = ["derive"] }
sha2 = "0.10"
tempfile = "3"
thiserror = "1"
zeroize = { version = "1", features = ["derive"] }
