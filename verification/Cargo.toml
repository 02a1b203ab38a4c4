[package]
name = "nova"
version = "0.1.0"
edition = "2021"
publish = false

[dependencies]
unicode-width = "*"
base64 = "*"
image = { version = "*", default-features = false, features = ["png"] }
vte = "*"
toml = "*"
serde = { version = "*", features = ["derive"] }
anyhow = "*"
dirs = "*"
portable-pty = "*"
