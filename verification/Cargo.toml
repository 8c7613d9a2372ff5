[package]
name = "passmgr"
version = "0.1.0"
edition = "2021"
publish = false

[dependencies]
anyhow = "*"
argon2 = "*"
base64 = "*"
chacha20poly1305 = "*"
chrono = "*"
clap = { version = "*", features = ["derive"] }
dirs-next = "*"
log = "*"
rand = "*"
rpassword = "*"
rustyline = "*"
serde = { version = "*", features = ["derive"] }
serde_json = "*"
shell-words = "*"
simplelog = "*"
