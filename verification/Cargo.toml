[package]
name = "rust_pop3_client"
version = "0.1.0"
edition = "2021"
publish = false

[dependencies]
rustls = "0.21"
rustls-native-certs = "0.6"
