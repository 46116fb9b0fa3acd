[package]
name = "crypt_serve"
version = "0.1.0"
edition = "2021"
publish = false

[dependencies]
actix-files = "0.6"
actix-web = "4"
aes = "0.8"
futures-core = "0.3"
hex = "0.4"
mime_guess = "2"
rand = "0.8"
sha2 = "0.10"
