[package]
name = "game_translator"
version = "0.1.0"
edition = "2021"
publish = false

[dependencies]
quick-xml = "=0.38.4"
serde = { version = "=1.0.229", features = ["derive"] }
serde_json = "=1.0.154"
sha2 = "=0.10.9"
encoding_rs = "=0.8.44"
zip = { version = "=9.2.2", default-features = false, features = ["deflate"] }
keyring = { version = "=3.6.3", features = ["windows-native"] }
printpdf = "=0.8.2"
