[package]
name = "solsign"
version = "0.1.0"
edition = "2021"
publish = false

[dependencies]
base64 = "0.13"
bs58 = "0.4"
derivation-path = "0.2"
ed25519 = "1"
ed25519-dalek = "1"
ed25519-dalek-bip32 = "0.2"
hmac = "0.12"
pbkdf2 = "0.11"
rpassword = "7"
sha2 = "0.10"
