[package]
name = "pswd"
version = "0.1.0"
edition = "2021"
publish = false

[dependencies]
aes-gcm = "*"
arboard = "*"
argon2 = "*"
base64 = "0.22"
chrono = "0.4"
console = "*"
csv = "1"
dialoguer = "*"
machine-uid = "*"
pinyin = "*"
rand = "0.10"
rusqlite = { version = "*", features = ["bundled"] }
windows-sys = { version = "*", features = ["Win32_Foundation", "Win32_System_Console"] }
zeroize = "1"
