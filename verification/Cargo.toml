[package]
name = "todolists"
version = "0.1.0"
edition = "2021"
publish = false

[dependencies]
bcrypt = "*"
console = "*"
dialoguer = "*"
rpassword = "*"
rusqlite = "*"
serde = { version = "*", features = ["derive"] }
serde_json = "*"
