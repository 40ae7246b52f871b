[package]
name = "notes_kit"
version = "0.1.0"
edition = "2021"
publish = false

[dependencies]
orgize = "0.10.0-alpha.10"
brotli = "*"
flate2 = "*"
mime_guess = "*"
argon2 = "*"
bytes = "*"
serde = { version = "1", features = ["derive"] }
serde_json = "1"
toml = "*"
